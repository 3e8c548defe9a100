//! The data that passes between the parts of the library.

use vstd::prelude::*;

verus! {

/// A frame rate: `num` frames in `den` seconds.
#[derive(Debug, Clone, Copy, PartialEq, Eq, Structural)]
pub struct FrameRate {
    pub num: u32,
    pub den: u32,
}

impl FrameRate {
    /// The rate cut down to whole frames per second. A rate with no seconds
    /// under it counts as the largest rate there is, and 0 over 0 as 0.
    pub open spec fn whole_spec(self) -> int {
        if self.den == 0 {
            if self.num == 0 {
                0
            } else {
                u32::MAX as int
            }
        } else {
            self.num as int / self.den as int
        }
    }

    /// `fps` frames per second.
    pub fn per_second(fps: u32) -> (rate: FrameRate)
        ensures
            rate == (FrameRate { num: fps, den: 1 }),
            rate.whole_spec() == fps,
    {
        FrameRate { num: fps, den: 1 }
    }

    /// The rate cut down to whole frames per second.
    pub fn whole(&self) -> (fps: u32)
        ensures
            fps as int == self.whole_spec(),
    {
        if self.den == 0 {
            if self.num == 0 {
                0
            } else {
                u32::MAX
            }
        } else {
            self.num / self.den
        }
    }
}

/// One frame of a stream: its bytes and its presentation timestamp, in the
/// units of the container that it was read from.
#[derive(Debug, Clone, PartialEq, Eq)]
pub struct MediaFrame {
    pub data: Vec<u8>,
    pub timestamp: u64,
}

/// A frame as contracts see it.
pub struct FrameView {
    pub data: Seq<u8>,
    pub timestamp: u64,
}

impl View for MediaFrame {
    type V = FrameView;

    open spec fn view(&self) -> FrameView {
        FrameView { data: self.data@, timestamp: self.timestamp }
    }
}

/// The frames of a list as contracts see them.
pub open spec fn frame_views(frames: Seq<MediaFrame>) -> Seq<FrameView> {
    Seq::new(frames.len(), |i: int| frames[i]@)
}

/// The payloads of a list as contracts see them.
pub open spec fn payload_views(payloads: Seq<Vec<u8>>) -> Seq<Seq<u8>> {
    Seq::new(payloads.len(), |i: int| payloads[i]@)
}

/// Codec settings that a caller asks for. Only the width, the height and the
/// frame rate of the video settings bear on a transcoding pass.
#[derive(Debug, Clone)]
pub struct CodecOptions {
    pub codec_name: Option<String>,
    pub bit_rate: Option<i64>,
    pub width: Option<i32>,
    pub height: Option<i32>,
    pub frame_rate: Option<FrameRate>,
    pub sample_rate: Option<i32>,
    pub channels: Option<i32>,
    pub gop_size: Option<i32>,
    pub max_b_frames: Option<i32>,
    pub crf: Option<i32>,
    pub preset: Option<String>,
    pub tune: Option<String>,
    pub profile: Option<String>,
    pub level: Option<i32>,
}

/// A filter, as a filter string: a name, and behind `=` its parameters.
#[derive(Debug, Clone)]
pub struct FilterConfig {
    pub filter_string: String,
}

/// What one transcoding pass is asked to do.
#[derive(Debug, Clone)]
pub struct TranscodeOptions {
    pub input_path: String,
    pub output_path: String,
    pub video_codec: Option<CodecOptions>,
    pub audio_codec: Option<CodecOptions>,
    pub video_filter: Option<FilterConfig>,
    pub audio_filter: Option<FilterConfig>,
    pub format: Option<String>,
    /// The curve that a contrast filter applies: for every sample value the
    /// value that takes its place. Without it a contrast filter lets the
    /// frames pass.
    pub contrast_curve: Option<[u8; 256]>,
    /// The eight bytes of the duration element of a Matroska header, as one
    /// number: the bit pattern of the length of a frame in milliseconds.
    pub frame_duration: u64,
}

/// One stream of a file.
#[derive(Debug, Clone)]
pub struct StreamInfo {
    pub index: i32,
    pub codec_type: String,
    pub codec_name: String,
    pub width: Option<i32>,
    pub height: Option<i32>,
    pub frame_rate: Option<FrameRate>,
    pub sample_rate: Option<i32>,
    pub channels: Option<i32>,
}

/// The container of a file.
#[derive(Debug, Clone)]
pub struct FormatInfo {
    pub name: String,
    pub long_name: String,
    pub start_time: Option<i64>,
    pub nb_streams: i32,
}

/// What is known of a media file.
#[derive(Debug, Clone)]
pub struct MediaInfo {
    pub format: FormatInfo,
    pub streams: Vec<StreamInfo>,
}

} // verus!
