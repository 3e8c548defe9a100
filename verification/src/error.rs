//! What can go wrong in the library.

use vstd::prelude::*;
use vstd::string::*;
use crate::format::{format_name, format_name_spec, MediaFormat};

verus! {

/// The errors of the library.
#[derive(Debug, Clone, Copy, PartialEq, Eq, Structural)]
pub enum MediaError {
    /// An IVF stream of fewer than 32 bytes.
    IvfHeaderTooShort,
    /// A Y4M stream without a line end, so without a header line.
    Y4mHeaderMissing,
    /// A Y4M header line that is not valid UTF-8.
    Y4mHeaderNotText,
    /// A `W` token that is no 32-bit number.
    InvalidWidth,
    /// An `H` token that is no 32-bit number.
    InvalidHeight,
    /// An `F` token of two parts whose first is no number.
    InvalidFrameRateNumerator,
    /// An `F` token of two parts whose second is no number.
    InvalidFrameRateDenominator,
    /// A crop rectangle that does not lie within the frame.
    CropOutOfBounds,
    /// A frame rate of less than one whole frame per second, where the time
    /// base is a second divided by the rate.
    FrameRateTooLow,
    /// An empty file.
    FileEmpty,
    /// A file of fewer than 32 bytes.
    FileTooSmall,
    /// A file in which no codec and no dimensions were found.
    InvalidMedia,
    /// A frame whose size is not what the encoder's dimensions ask for.
    InvalidYuvSize,
    /// Fewer bytes than the dimensions of a frame ask for.
    InsufficientYuvData,
    /// A codec for which there is no encoder.
    EncoderUnavailable,
    /// A format from which no frames are extracted.
    UnsupportedExtraction,
    /// Dimensions of which no frame can be made: a width below 2, or a size
    /// beyond what can be addressed.
    InvalidFrameDimensions,
    /// An image format in which no frames are saved.
    UnsupportedImageFormat,
}

/// The text of an error.
pub open spec fn message_spec(error: MediaError) -> Seq<char> {
    match error {
        MediaError::IvfHeaderTooShort => "Invalid IVF file: header too short"@,
        MediaError::Y4mHeaderMissing => "Invalid Y4M file: no header found"@,
        MediaError::Y4mHeaderNotText => "Invalid Y4M header: not valid UTF-8"@,
        MediaError::InvalidWidth => "Invalid width"@,
        MediaError::InvalidHeight => "Invalid height"@,
        MediaError::InvalidFrameRateNumerator => "Invalid frame rate numerator"@,
        MediaError::InvalidFrameRateDenominator => "Invalid frame rate denominator"@,
        MediaError::CropOutOfBounds => "Crop parameters exceed frame dimensions"@,
        MediaError::FrameRateTooLow => "Frame rate below one frame per second"@,
        MediaError::FileEmpty => "File is empty"@,
        MediaError::FileTooSmall => "File is too small to be a valid media file"@,
        MediaError::InvalidMedia => "Invalid or corrupted media file"@,
        MediaError::InvalidYuvSize => "Invalid YUV data size"@,
        MediaError::InsufficientYuvData => "Insufficient YUV data for frame dimensions"@,
        MediaError::EncoderUnavailable => "VP8 encoding not yet implemented"@,
        MediaError::UnsupportedExtraction => "Unsupported format for frame extraction"@,
        MediaError::InvalidFrameDimensions => "Invalid frame dimensions"@,
        MediaError::UnsupportedImageFormat => "Unsupported image format. Supported formats: png, jpg, jpeg, bmp"@,
    }
}

impl MediaError {
    /// The text of the error.
    pub fn message(&self) -> (text: String)
        ensures
            text@ == message_spec(*self),
    {
        match self {
            MediaError::IvfHeaderTooShort => "Invalid IVF file: header too short".to_string(),
            MediaError::Y4mHeaderMissing => "Invalid Y4M file: no header found".to_string(),
            MediaError::Y4mHeaderNotText => "Invalid Y4M header: not valid UTF-8".to_string(),
            MediaError::InvalidWidth => "Invalid width".to_string(),
            MediaError::InvalidHeight => "Invalid height".to_string(),
            MediaError::InvalidFrameRateNumerator => "Invalid frame rate numerator".to_string(),
            MediaError::InvalidFrameRateDenominator => "Invalid frame rate denominator".to_string(),
            MediaError::CropOutOfBounds => "Crop parameters exceed frame dimensions".to_string(),
            MediaError::FrameRateTooLow => "Frame rate below one frame per second".to_string(),
            MediaError::FileEmpty => "File is empty".to_string(),
            MediaError::FileTooSmall => "File is too small to be a valid media file".to_string(),
            MediaError::InvalidMedia => "Invalid or corrupted media file".to_string(),
            MediaError::InvalidYuvSize => "Invalid YUV data size".to_string(),
            MediaError::InsufficientYuvData => "Insufficient YUV data for frame dimensions".to_string(),
            MediaError::EncoderUnavailable => "VP8 encoding not yet implemented".to_string(),
            MediaError::UnsupportedExtraction => "Unsupported format for frame extraction".to_string(),
            MediaError::InvalidFrameDimensions => "Invalid frame dimensions".to_string(),
            MediaError::UnsupportedImageFormat => "Unsupported image format. Supported formats: png, jpg, jpeg, bmp".to_string(),
        }
    }
}

/// Why a conversion from one format to another did not come about.
#[derive(Debug, Clone, PartialEq)]
pub enum TranscodeError {
    /// Nothing is converted between the two formats: the format of the input
    /// and the format of the output, as they were detected.
    UnsupportedConversion { input: MediaFormat, output: MediaFormat },
    /// The pass between the two formats failed.
    Pass(MediaError),
}

/// The text of a failed conversion. That of an unsupported pair names both
/// formats.
pub open spec fn transcode_message_spec(error: TranscodeError) -> Seq<char> {
    match error {
        TranscodeError::UnsupportedConversion { input, output } =>
            "Unsupported format conversion from "@ + format_name_spec(input@) + " to "@
                + format_name_spec(output@),
        TranscodeError::Pass(error) => message_spec(error),
    }
}

impl TranscodeError {
    /// The text of the error.
    pub fn message(&self) -> (text: String)
        ensures
            text@ == transcode_message_spec(*self),
    {
        match self {
            TranscodeError::UnsupportedConversion { input, output } => {
                let mut text = "Unsupported format conversion from ".to_string();
                let input_name = format_name(input);
                text.append(input_name.as_str());
                text.append(" to ");
                let output_name = format_name(output);
                text.append(output_name.as_str());
                text
            },
            TranscodeError::Pass(error) => error.message(),
        }
    }
}

} // verus!
