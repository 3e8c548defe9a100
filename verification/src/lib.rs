//! Detection, reading, writing and transcoding of IVF, Matroska/WebM and Y4M
//! streams, with pixel filters on planar YUV 4:2:0 frames.
//!
//! The library works on bytes in memory and holds no fractional numbers: a
//! frame rate is a ratio of two whole numbers, and what a caller derives from
//! fractions, the curve of a contrast setting and the bit pattern of a frame's
//! duration, it hands in as plain values.

pub mod bytes;
pub mod codec;
pub mod codec_detection;
pub mod encoding;
pub mod error;
pub mod format;
pub mod format_parsers;
pub mod format_writers;
pub mod images;
pub mod media;
pub mod text;
pub mod transcoding;
pub mod types;
pub mod video_encoding;
pub mod video_filters;

pub use crate::codec::{codec_name, codec_type, is_codec_supported, CodecType, MediaCodec};
pub use crate::error::{MediaError, TranscodeError};
pub use crate::format::{detect_format, format_long_name, format_name, MediaFormat};
pub use crate::media::{
    create_processor, get_media_info, get_media_summary, get_supported_codecs,
    get_supported_formats, get_supported_pixel_formats, get_supported_sample_formats,
    validate_media_file, DefaultMediaProcessor, MediaProcessingResult, MediaProcessor,
};
pub use crate::transcoding::{transcode, transform_format};
pub use crate::types::{
    CodecOptions, FilterConfig, FormatInfo, FrameRate, MediaInfo, StreamInfo, TranscodeOptions,
};
