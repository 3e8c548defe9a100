//! Codec identities and their classification.

use vstd::prelude::*;
use vstd::string::*;
use crate::text::{lowercase_of, str_eq, to_lowercase};

verus! {

/// Supported media codecs.
#[derive(Debug, Clone, PartialEq)]
pub enum MediaCodec {
    /// AV1 (AOMedia Video 1).
    Av1,
    /// VP8.
    Vp8,
    /// VP9.
    Vp9,
    /// H.264 / AVC.
    H264,
    /// H.265 / HEVC.
    H265,
    /// Opus audio.
    Opus,
    /// Vorbis audio.
    Vorbis,
    /// PCM audio.
    Pcm,
    /// Any other codec, with its name.
    Unknown(String),
}

/// A codec as contracts see it.
pub enum MediaCodecView {
    Av1,
    Vp8,
    Vp9,
    H264,
    H265,
    Opus,
    Vorbis,
    Pcm,
    Unknown(Seq<char>),
}

impl View for MediaCodec {
    type V = MediaCodecView;

    open spec fn view(&self) -> MediaCodecView {
        match self {
            MediaCodec::Av1 => MediaCodecView::Av1,
            MediaCodec::Vp8 => MediaCodecView::Vp8,
            MediaCodec::Vp9 => MediaCodecView::Vp9,
            MediaCodec::H264 => MediaCodecView::H264,
            MediaCodec::H265 => MediaCodecView::H265,
            MediaCodec::Opus => MediaCodecView::Opus,
            MediaCodec::Vorbis => MediaCodecView::Vorbis,
            MediaCodec::Pcm => MediaCodecView::Pcm,
            MediaCodec::Unknown(name) => MediaCodecView::Unknown(name@),
        }
    }
}

/// The class of a codec.
#[derive(Debug, Clone, Copy, PartialEq, Eq, Structural)]
pub enum CodecType {
    Video,
    Audio,
    Subtitle,
    Data,
    Unknown,
}

/// The name of a codec.
pub open spec fn codec_name_spec(codec: MediaCodecView) -> Seq<char> {
    match codec {
        MediaCodecView::Av1 => "av1"@,
        MediaCodecView::Vp8 => "vp8"@,
        MediaCodecView::Vp9 => "vp9"@,
        MediaCodecView::H264 => "h264"@,
        MediaCodecView::H265 => "h265"@,
        MediaCodecView::Opus => "opus"@,
        MediaCodecView::Vorbis => "vorbis"@,
        MediaCodecView::Pcm => "pcm"@,
        MediaCodecView::Unknown(name) => name,
    }
}

/// The class of a codec: the five video codecs, the three audio codecs, and
/// unknown for the rest.
pub open spec fn codec_type_spec(codec: MediaCodecView) -> CodecType {
    match codec {
        MediaCodecView::Av1
        | MediaCodecView::Vp8
        | MediaCodecView::Vp9
        | MediaCodecView::H264
        | MediaCodecView::H265 => CodecType::Video,
        MediaCodecView::Opus | MediaCodecView::Vorbis | MediaCodecView::Pcm => CodecType::Audio,
        MediaCodecView::Unknown(_) => CodecType::Unknown,
    }
}

/// Whether `name` is, letter for letter, the name of a supported codec.
pub open spec fn is_supported_name(name: Seq<char>) -> bool {
    name == "av1"@ || name == "vp8"@ || name == "vp9"@ || name == "h264"@ || name == "h265"@
        || name == "opus"@ || name == "vorbis"@ || name == "pcm"@
}

/// The name of `codec`.
pub fn codec_name(codec: &MediaCodec) -> (name: String)
    ensures
        name@ == codec_name_spec(codec@),
{
    match codec {
        MediaCodec::Av1 => "av1".to_string(),
        MediaCodec::Vp8 => "vp8".to_string(),
        MediaCodec::Vp9 => "vp9".to_string(),
        MediaCodec::H264 => "h264".to_string(),
        MediaCodec::H265 => "h265".to_string(),
        MediaCodec::Opus => "opus".to_string(),
        MediaCodec::Vorbis => "vorbis".to_string(),
        MediaCodec::Pcm => "pcm".to_string(),
        MediaCodec::Unknown(name) => name.clone(),
    }
}

/// The class of `codec`.
pub fn codec_type(codec: &MediaCodec) -> (class: CodecType)
    ensures
        class == codec_type_spec(codec@),
{
    match codec {
        MediaCodec::Av1
        | MediaCodec::Vp8
        | MediaCodec::Vp9
        | MediaCodec::H264
        | MediaCodec::H265 => CodecType::Video,
        MediaCodec::Opus | MediaCodec::Vorbis | MediaCodec::Pcm => CodecType::Audio,
        MediaCodec::Unknown(_) => CodecType::Unknown,
    }
}

/// Whether `name`, taken as written, names a supported codec.
pub fn is_supported_codec_name(name: &str) -> (supported: bool)
    ensures
        supported == is_supported_name(name@),
{
    str_eq(name, "av1") || str_eq(name, "vp8") || str_eq(name, "vp9") || str_eq(name, "h264")
        || str_eq(name, "h265") || str_eq(name, "opus") || str_eq(name, "vorbis") || str_eq(
        name,
        "pcm",
    )
}

/// Whether `codec` names a supported codec, whatever the case of its letters.
pub fn is_codec_supported(codec: &str) -> (supported: bool)
    ensures
        supported == is_supported_name(lowercase_of(codec@)),
{
    let lower = to_lowercase(codec);
    is_supported_codec_name(lower.as_str())
}

} // verus!
