//! One interface over format detection and the lists of what is supported,
//! and what a file's name and size say of it before it is read.

use vstd::prelude::*;
use vstd::string::*;
use crate::codec_detection::{detect_codec, detection_spec, detection_view, Detection};
use crate::error::MediaError;
use crate::format::{
    format_from_extension, format_long_name, format_long_name_spec, format_name, format_name_spec,
    extension_of, format_of_extension, format_of_path, path_extension, MediaFormat,
    MediaFormatView,
};
use crate::types::{FormatInfo, MediaInfo, StreamInfo};

verus! {

/// The outcome of looking at a media file.
#[derive(Debug, Clone)]
pub struct MediaProcessingResult {
    pub success: bool,
    pub message: String,
    pub format: Option<String>,
    pub codec: Option<String>,
}

/// A media processor: it detects formats and says what it supports.
pub trait MediaProcessor {
    /// The format of the file that `path` names, if it is a known one.
    fn detect_format(&self, path: &str) -> Option<MediaFormat>;

    /// The names of the formats that the processor supports.
    fn supported_formats(&self) -> Vec<String>;

    /// The names of the codecs that the processor supports.
    fn supported_codecs(&self) -> Vec<String>;
}

/// The media processor of this library.
pub struct DefaultMediaProcessor;

/// The texts of a list of names.
pub open spec fn names_view(names: Seq<String>) -> Seq<Seq<char>> {
    Seq::new(names.len(), |i: int| names[i]@)
}

/// The names of the supported formats.
pub open spec fn supported_format_names() -> Seq<Seq<char>> {
    seq!["ivf"@, "matroska"@, "webm"@, "y4m"@]
}

/// The names of the supported codecs.
pub open spec fn supported_codec_names() -> Seq<Seq<char>> {
    seq!["av1"@, "vp8"@, "vp9"@, "h264"@, "h265"@, "opus"@, "vorbis"@, "pcm"@]
}

/// The names of the supported pixel formats.
pub open spec fn supported_pixel_format_names() -> Seq<Seq<char>> {
    seq!["yuv420p"@, "yuv422p"@, "yuv444p"@, "rgb24"@, "bgr24"@, "rgba"@]
}

/// The names of the supported sample formats.
pub open spec fn supported_sample_format_names() -> Seq<Seq<char>> {
    seq!["u8"@, "s16"@, "s32"@, "f32"@]
}

/// The format `format` where it is a known one.
pub open spec fn known_format(format: MediaFormatView) -> Option<MediaFormatView> {
    match format {
        MediaFormatView::Unknown(_) => None,
        known => Some(known),
    }
}

/// The view of a format, where there is one.
pub open spec fn format_option_view(format: Option<MediaFormat>) -> Option<MediaFormatView> {
    match format {
        Some(f) => Some(f@),
        None => None,
    }
}

/// `format` where it is a known one.
pub fn only_known(format: MediaFormat) -> (known: Option<MediaFormat>)
    ensures
        format_option_view(known) == known_format(format@),
{
    match format {
        MediaFormat::Unknown(_) => None,
        other => Some(other),
    }
}

impl MediaProcessor for DefaultMediaProcessor {
    fn detect_format(&self, path: &str) -> (format: Option<MediaFormat>)
        ensures
            format_option_view(format) == known_format(format_of_path(path@)),
    {
        only_known(crate::format::detect_format(path))
    }

    fn supported_formats(&self) -> (names: Vec<String>)
        ensures
            names_view(names@) == supported_format_names(),
    {
        let mut names: Vec<String> = Vec::new();
        names.push("ivf".to_string());
        names.push("matroska".to_string());
        names.push("webm".to_string());
        names.push("y4m".to_string());
        assert(names_view(names@) =~= supported_format_names());
        names
    }

    fn supported_codecs(&self) -> (names: Vec<String>)
        ensures
            names_view(names@) == supported_codec_names(),
    {
        let mut names: Vec<String> = Vec::new();
        names.push("av1".to_string());
        names.push("vp8".to_string());
        names.push("vp9".to_string());
        names.push("h264".to_string());
        names.push("h265".to_string());
        names.push("opus".to_string());
        names.push("vorbis".to_string());
        names.push("pcm".to_string());
        assert(names_view(names@) =~= supported_codec_names());
        names
    }
}

/// The media processor of this library.
pub fn create_processor() -> DefaultMediaProcessor {
    DefaultMediaProcessor
}

/// The names of the supported container formats.
pub fn get_supported_formats() -> (names: Vec<String>)
    ensures
        names_view(names@) == supported_format_names(),
{
    create_processor().supported_formats()
}

/// The names of the supported codecs.
pub fn get_supported_codecs() -> (names: Vec<String>)
    ensures
        names_view(names@) == supported_codec_names(),
{
    create_processor().supported_codecs()
}

/// The names of the supported pixel formats.
pub fn get_supported_pixel_formats() -> (names: Vec<String>)
    ensures
        names_view(names@) == supported_pixel_format_names(),
{
    let mut names: Vec<String> = Vec::new();
    names.push("yuv420p".to_string());
    names.push("yuv422p".to_string());
    names.push("yuv444p".to_string());
    names.push("rgb24".to_string());
    names.push("bgr24".to_string());
    names.push("rgba".to_string());
    assert(names_view(names@) =~= supported_pixel_format_names());
    names
}

/// The names of the supported audio sample formats.
pub fn get_supported_sample_formats() -> (names: Vec<String>)
    ensures
        names_view(names@) == supported_sample_format_names(),
{
    let mut names: Vec<String> = Vec::new();
    names.push("u8".to_string());
    names.push("s16".to_string());
    names.push("s32".to_string());
    names.push("f32".to_string());
    assert(names_view(names@) =~= supported_sample_format_names());
    names
}

/// The view of a text, where there is one.
pub open spec fn text_option_view(text: Option<String>) -> Option<Seq<char>> {
    match text {
        Some(t) => Some(t@),
        None => None,
    }
}

/// What is said of a file by its name alone: that it was not found, where it
/// does not exist; else whether its extension names a known format, and which.
pub open spec fn validation_spec(
    path: Seq<char>,
    exists: bool,
    format: MediaFormatView,
    result: MediaProcessingResult,
) -> bool {
    if !exists {
        &&& !result.success
        &&& result.message@ == "File not found: "@ + path
        &&& result.format is None
        &&& result.codec is None
    } else {
        match known_format(format) {
            Some(known) => {
                &&& result.success
                &&& result.message@ == "Format detected successfully"@
                &&& text_option_view(result.format) == Some(format_name_spec(known))
                &&& result.codec is None
            },
            None => {
                &&& !result.success
                &&& result.message@ == "Unknown format"@
                &&& result.format is None
                &&& result.codec is None
            },
        }
    }
}

/// Says what the name of a file tells of it. `exists` says whether there is
/// such a file.
pub fn validate_media_file(path: &str, exists: bool) -> (result: MediaProcessingResult)
    ensures
        validation_spec(path@, exists, format_of_path(path@), result),
{
    if !exists {
        let mut message = "File not found: ".to_string();
        message.append(path);
        return MediaProcessingResult { success: false, message, format: None, codec: None };
    }
    let detected = crate::format::detect_format(path);
    let result = match detected {
        MediaFormat::Unknown(_) => MediaProcessingResult {
            success: false,
            message: "Unknown format".to_string(),
            format: None,
            codec: None,
        },
        known => MediaProcessingResult {
            success: true,
            message: "Format detected successfully".to_string(),
            format: Some(format_name(&known)),
            codec: None,
        },
    };
    result
}

/// The summary of a file whose format is `format`.
pub open spec fn summary_spec(path: Seq<char>, format: MediaFormatView) -> Seq<char> {
    "File: "@ + path + "\nFormat: "@ + (match known_format(format) {
        Some(known) => format_long_name_spec(known),
        None => "Unknown format"@,
    }) + "\nSupported Formats: [\"ivf\", \"matroska\", \"webm\", \"y4m\"]"@
        + "\nSupported Codecs: [\"av1\", \"vp8\", \"vp9\", \"h264\", \"h265\", \"opus\", \"vorbis\", \"pcm\"]"@
}

/// A summary of a file in four lines: its name, its format, and the formats
/// and the codecs that are supported.
pub fn get_media_summary(path: &str) -> (summary: String)
    ensures
        summary@ == summary_spec(path@, format_of_path(path@)),
{
    let detected = crate::format::detect_format(path);
    let mut summary = "File: ".to_string();
    summary.append(path);
    summary.append("\nFormat: ");
    match &detected {
        MediaFormat::Unknown(_) => {
            summary.append("Unknown format");
        },
        known => {
            let long_name = format_long_name(known);
            summary.append(long_name.as_str());
        },
    }
    summary.append("\nSupported Formats: [\"ivf\", \"matroska\", \"webm\", \"y4m\"]");
    summary.append(
        "\nSupported Codecs: [\"av1\", \"vp8\", \"vp9\", \"h264\", \"h265\", \"opus\", \"vorbis\", \"pcm\"]",
    );
    assert(summary@ == summary_spec(path@, format_of_path(path@)));
    summary
}

/// Whether `stream` is the one stream of what was detected.
pub open spec fn is_detected_stream(stream: StreamInfo, detection: Detection) -> bool {
    &&& stream.index == 0
    &&& stream.codec_type@ == detection.codec_type
    &&& stream.codec_name@ == detection.codec_name
    &&& stream.width == detection.width
    &&& stream.height == detection.height
    &&& stream.frame_rate == detection.frame_rate
    &&& stream.sample_rate == detection.sample_rate
    &&& stream.channels == detection.channels
}

/// Whether nothing of use was detected: no codec and no dimensions.
pub open spec fn is_unreadable(detection: Detection) -> bool {
    detection.codec_name.len() == 0 && detection.width is None && detection.height is None
}

/// What is known of a file of `file_size` bytes that starts with `head` and
/// has the extension `extension`: an error for a file that is empty, shorter
/// than 32 bytes, or shows neither codec nor dimensions; else its format by
/// the extension, and the one stream that detection finds in `head`.
pub open spec fn media_info_spec(
    file_size: u64,
    head: Seq<u8>,
    extension: Option<Seq<char>>,
    result: Result<MediaInfo, MediaError>,
) -> bool {
    let format = format_of_extension(extension);
    let detection = detection_spec(head, format, extension);
    if file_size == 0 {
        result matches Err(error) && error == MediaError::FileEmpty
    } else if file_size < 32 {
        result matches Err(error) && error == MediaError::FileTooSmall
    } else if is_unreadable(detection) {
        result matches Err(error) && error == MediaError::InvalidMedia
    } else {
        result matches Ok(info) && {
            &&& info.format.name@ == format_name_spec(format)
            &&& info.format.long_name@ == format_long_name_spec(format)
            &&& info.format.start_time == Some(0i64)
            &&& info.format.nb_streams == info.streams@.len()
            &&& if detection.codec_name.len() == 0 {
                info.streams@.len() == 0
            } else {
                info.streams@.len() == 1 && is_detected_stream(info.streams@[0], detection)
            }
        }
    }
}

/// Gathers what is known of a file of `file_size` bytes that starts with
/// `head` and has the extension `extension`.
pub fn media_info_for(file_size: u64, head: &[u8], extension: Option<&str>) -> (result: Result<
    MediaInfo,
    MediaError,
>)
    ensures
        media_info_spec(
            file_size,
            head@,
            match extension {
                Some(ext) => Some(ext@),
                None => None,
            },
            result,
        ),
{
    if file_size == 0 {
        return Err(MediaError::FileEmpty);
    }
    if file_size < 32 {
        return Err(MediaError::FileTooSmall);
    }
    let format = format_from_extension(extension);
    let name = format_name(&format);
    let long_name = format_long_name(&format);
    let detected = detect_codec(head, &format, extension);
    let ghost detection = detection_view(detected);
    let (codec_name, codec_type, width, height, frame_rate, sample_rate, channels) = detected;
    if codec_name.as_str().unicode_len() == 0 && width.is_none() && height.is_none() {
        return Err(MediaError::InvalidMedia);
    }
    let mut streams: Vec<StreamInfo> = Vec::new();
    if codec_name.as_str().unicode_len() != 0 {
        streams.push(
            StreamInfo {
                index: 0,
                codec_type,
                codec_name,
                width,
                height,
                frame_rate,
                sample_rate,
                channels,
            },
        );
    }
    let nb_streams: i32 = if streams.len() == 0 {
        0
    } else {
        1
    };
    Ok(MediaInfo { format: FormatInfo { name, long_name, start_time: Some(0), nb_streams }, streams })
}

/// Gathers what is known of the file that `path` names, of `file_size` bytes,
/// which starts with `head`.
pub fn get_media_info(path: &str, file_size: u64, head: &[u8]) -> (result: Result<
    MediaInfo,
    MediaError,
>)
    ensures
        media_info_spec(file_size, head@, extension_of(path@), result),
{
    let extension = path_extension(path);
    match &extension {
        Some(ext) => media_info_for(file_size, head, Some(ext.as_str())),
        None => media_info_for(file_size, head, None),
    }
}

} // verus!
