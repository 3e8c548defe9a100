//! Transcoding between the three containers. One call is one pass: the
//! source's header is read, the destination's header is written, and every
//! frame of the source goes through the filter, if there is one, and into the
//! destination, in the order of the source.
//!
//! A pass appends to a byte buffer. When a pass fails, what it had written up
//! to then stays in the buffer.

use vstd::prelude::*;
use vstd::slice::slice_subrange;
use vstd::string::*;
use vstd::utf8::{encode_utf8, valid_utf8};
use crate::bytes::{has_bytes_at, low_u16, push_u16_le, read_u16_le, starts_with_at, u16_at, u16_le};
use crate::error::{MediaError, TranscodeError};
use crate::format::{copy_format, detect_format, format_of_path, MediaFormat, MediaFormatView};
use crate::format_parsers::{
    at_most, find_y4m_header_end, frame_size_420, ivf_frames, ivf_frames_from, ivf_records,
    lemma_ivf_frames_round_trip, lemma_matroska_frames_sized, matroska_scan_start,
    lemma_ivf_frames_len, lemma_y4m_frames_len, matroska_frames, parse_matroska_frames,
    parse_y4m_header, read_ivf_frames, read_y4m_frames, y4m_frames_from, y4m_header_end,
    y4m_header_spec, yuv420_frame_size,
};
use crate::format_writers::{
    cluster_start_bytes, ivf_frame_bytes, ivf_header_bytes, lemma_ivf_header_fields,
    matroska_trailer_bytes,
    simpleblock_bytes, webm_header_bytes, write_ivf_frame, write_ivf_header,
    write_matroska_cluster_start, write_matroska_simpleblock, write_matroska_trailer,
    write_webm_header, write_y4m_frame, write_y4m_header, y4m_frame_bytes, y4m_header_bytes,
};
use crate::text::text_of;
use crate::types::{frame_views, payload_views, MediaFrame, FrameRate, FrameView, TranscodeOptions};
use crate::video_encoding::{codec_id_spec, fourcc_spec, VideoCodec};
use crate::video_filters::{
    apply_filter, filtered, parse_filter_spec, parse_video_filter, VideoFilter,
};

verus! {

/// The three containers.
#[derive(Debug, Clone, Copy, PartialEq, Eq, Structural)]
pub enum Container {
    Ivf,
    Matroska,
    Y4m,
}

/// What bears on a pass: the dimensions and the frame rate that overrule the
/// source's, the filter and the curve of its contrast, and the bit pattern of
/// the duration element of a Matroska header.
#[derive(Debug, Clone, Copy)]
pub struct PassSettings {
    pub width: Option<i32>,
    pub height: Option<i32>,
    pub frame_rate: Option<FrameRate>,
    pub filter: Option<VideoFilter>,
    pub contrast_curve: Option<[u8; 256]>,
    pub frame_duration: u64,
}

/// The settings of a pass as contracts see them.
pub struct Settings {
    pub width: Option<i32>,
    pub height: Option<i32>,
    pub frame_rate: Option<FrameRate>,
    pub filter: Option<VideoFilter>,
    pub curve: Option<Seq<u8>>,
    pub frame_duration: u64,
}

impl View for PassSettings {
    type V = Settings;

    open spec fn view(&self) -> Settings {
        Settings {
            width: self.width,
            height: self.height,
            frame_rate: self.frame_rate,
            filter: self.filter,
            curve: match self.contrast_curve {
                Some(table) => Some(table@),
                None => None,
            },
            frame_duration: self.frame_duration,
        }
    }
}

/// The settings that transcoding options stand for: the width, the height and
/// the frame rate of the video settings, and the filter that the video filter
/// string asks for.
pub open spec fn settings_of(options: TranscodeOptions) -> Settings {
    Settings {
        width: match options.video_codec {
            Some(video) => video.width,
            None => None,
        },
        height: match options.video_codec {
            Some(video) => video.height,
            None => None,
        },
        frame_rate: match options.video_codec {
            Some(video) => video.frame_rate,
            None => None,
        },
        filter: match options.video_filter {
            Some(config) => Some(parse_filter_spec(encode_utf8(config.filter_string@))),
            None => None,
        },
        curve: match options.contrast_curve {
            Some(table) => Some(table@),
            None => None,
        },
        frame_duration: options.frame_duration,
    }
}

/// The settings of a pass that overrules nothing and filters nothing.
pub open spec fn plain_settings(frame_duration: u64) -> Settings {
    Settings {
        width: None,
        height: None,
        frame_rate: None,
        filter: None,
        curve: None,
        frame_duration,
    }
}

/// What a pass writes, and the error that ended it, if one did.
pub struct Pass {
    pub bytes: Seq<u8>,
    pub error: Option<MediaError>,
}

/// The pass that fails at once with `error`.
pub open spec fn failed(error: MediaError) -> Pass {
    Pass { bytes: Seq::empty(), error: Some(error) }
}

/// The pass `pass` behind the bytes `head`.
pub open spec fn after(head: Seq<u8>, pass: Pass) -> Pass {
    Pass { bytes: head + pass.bytes, error: pass.error }
}

/// The pass `pass` with `tail` behind it, where it did not fail.
pub open spec fn closed_by(pass: Pass, tail: Seq<u8>) -> Pass {
    match pass.error {
        Some(_) => pass,
        None => Pass { bytes: pass.bytes + tail, error: None },
    }
}

/// Whether a call carried out `pass`: the buffer grew by the bytes of the pass,
/// and the call failed with the error of the pass or not at all.
pub open spec fn carried_out(
    result: Result<(), MediaError>,
    before: Seq<u8>,
    after: Seq<u8>,
    pass: Pass,
) -> bool {
    after == before + pass.bytes && result == (match pass.error {
        Some(error) => Err::<(), MediaError>(error),
        None => Ok::<(), MediaError>(()),
    })
}

/// One frame after the filter of the pass.
pub open spec fn frame_filtered(data: Seq<u8>, filter: Option<VideoFilter>, curve: Option<Seq<u8>>) -> Result<
    Seq<u8>,
    MediaError,
> {
    match filter {
        Some(f) => filtered(data, f, curve),
        None => Ok(data),
    }
}

/// The record of one frame in the container `to`. IVF and Matroska carry the
/// timestamp; Y4M carries none.
pub open spec fn frame_record(to: Container, payload: Seq<u8>, timestamp: u64) -> Seq<u8> {
    match to {
        Container::Ivf => ivf_frame_bytes(payload, timestamp as int),
        Container::Matroska => simpleblock_bytes(payload, timestamp as int),
        Container::Y4m => y4m_frame_bytes(payload),
    }
}

/// The pass over the frames from the `k`-th on: each goes through the filter
/// and into its record; the first frame that the filter refuses ends the pass.
pub open spec fn frames_pass(
    frames: Seq<FrameView>,
    k: int,
    filter: Option<VideoFilter>,
    curve: Option<Seq<u8>>,
    to: Container,
) -> Pass
    decreases frames.len() - k,
{
    if k < 0 || k >= frames.len() {
        Pass { bytes: Seq::empty(), error: None }
    } else {
        match frame_filtered(frames[k].data, filter, curve) {
            Err(error) => failed(error),
            Ok(payload) => after(
                frame_record(to, payload, frames[k].timestamp),
                frames_pass(frames, k + 1, filter, curve, to),
            ),
        }
    }
}

/// The payloads as frames whose timestamp is their place in the list.
pub open spec fn indexed(payloads: Seq<Seq<u8>>) -> Seq<FrameView> {
    Seq::new(payloads.len(), |i: int| FrameView { data: payloads[i], timestamp: i as u64 })
}

/// The time of a Matroska block for a frame with the IVF timestamp
/// `timestamp`: the timestamp times the time base, in 64 bits, divided by a
/// million.
pub open spec fn block_time(timestamp: u64, timebase: u64) -> u64 {
    ((timestamp * timebase) % 0x1_0000_0000_0000_0000 / 1_000_000) as u64
}

/// The frames with the block times of their timestamps, where there is a time
/// base; the frames as they are, where there is none.
pub open spec fn stamped(frames: Seq<FrameView>, timebase: Option<u64>) -> Seq<FrameView> {
    match timebase {
        Some(base) => Seq::new(
            frames.len(),
            |i: int| FrameView { data: frames[i].data, timestamp: block_time(frames[i].timestamp, base) },
        ),
        None => frames,
    }
}

/// `setting` where it is given, else `detected`.
pub open spec fn overruled<T>(setting: Option<T>, detected: T) -> T {
    match setting {
        Some(value) => value,
        None => detected,
    }
}

/// The width that an IVF header gives.
pub open spec fn ivf_width(input: Seq<u8>) -> i32 {
    u16_at(input, 24) as i32
}

/// The height that an IVF header gives.
pub open spec fn ivf_height(input: Seq<u8>) -> i32 {
    u16_at(input, 26) as i32
}

/// The codec that the FourCC of an IVF header names; VP9 where it names none.
pub open spec fn ivf_codec(input: Seq<u8>) -> VideoCodec {
    if has_bytes_at(input, 16, "AV01".spec_bytes()) {
        VideoCodec::Av1
    } else if has_bytes_at(input, 16, "VP80".spec_bytes()) {
        VideoCodec::Vp8
    } else {
        VideoCodec::Vp9
    }
}

/// The configuration record that a Matroska track carries for a codec: for
/// VP9 the profile, the level, the bit depth and the chroma subsampling, then
/// the low 16 bits of width and of height; for AV1 the marker with the version
/// and four zero bytes; for VP8 five zero bytes.
pub open spec fn codec_private_spec(codec: VideoCodec, width: int, height: int) -> Seq<u8> {
    match codec {
        VideoCodec::Vp9 => seq![0x01u8, 0x00u8, 0x00u8, 0x00u8] + u16_le(width % 0x1_0000) + u16_le(
            height % 0x1_0000,
        ),
        VideoCodec::Av1 => seq![0x81u8, 0x00u8, 0x00u8, 0x00u8, 0x00u8],
        VideoCodec::Vp8 => seq![0x00u8, 0x00u8, 0x00u8, 0x00u8, 0x00u8],
    }
}

/// The frame rate that a source without one is taken to have.
pub open spec fn default_rate() -> FrameRate {
    FrameRate { num: 30, den: 1 }
}

/// The header of a WebM file and the opening of its one cluster.
pub open spec fn webm_opening(codec: VideoCodec, width: i32, height: i32, frame_duration: u64) -> Seq<u8> {
    webm_header_bytes(
        width as int,
        height as int,
        frame_duration as int,
        encode_utf8(codec_id_spec(codec)),
        Some(codec_private_spec(codec, width as int, height as int)),
    ) + cluster_start_bytes(0)
}

/// The pass from IVF to Matroska: the header of the codec that the FourCC
/// names, one cluster with a block for every frame, and the trailer. A
/// frame's timestamp is multiplied by the nanoseconds of one frame and divided
/// by a million.
pub open spec fn ivf_to_matroska_pass(input: Seq<u8>, settings: Settings) -> Pass {
    let width = overruled(settings.width, ivf_width(input));
    let height = overruled(settings.height, ivf_height(input));
    let rate = overruled(settings.frame_rate, default_rate()).whole_spec();
    if input.len() < 32 {
        failed(MediaError::IvfHeaderTooShort)
    } else if rate < 1 {
        failed(MediaError::FrameRateTooLow)
    } else {
        closed_by(
            after(
                webm_opening(ivf_codec(input), width, height, settings.frame_duration),
                frames_pass(
                    stamped(ivf_frames(input), Some((1_000_000_000int / rate) as u64)),
                    0,
                    settings.filter,
                    settings.curve,
                    Container::Matroska,
                ),
            ),
            matroska_trailer_bytes(),
        )
    }
}

/// The pass from Matroska to IVF: a VP9 header of 640 by 480 at 30 frames per
/// second, unless the settings say otherwise, and a record for every block,
/// its timestamp the block's place in the stream.
pub open spec fn matroska_to_ivf_pass(input: Seq<u8>, settings: Settings) -> Pass {
    after(
        ivf_header_bytes(
            overruled(settings.width, 640i32) as int,
            overruled(settings.height, 480i32) as int,
            overruled(settings.frame_rate, default_rate()).whole_spec(),
            fourcc_spec(VideoCodec::Vp9),
        ),
        frames_pass(
            indexed(matroska_frames(input)),
            0,
            settings.filter,
            settings.curve,
            Container::Ivf,
        ),
    )
}

/// The payloads of the frames of a Y4M stream whose header line ends at
/// `header_end`, for a picture of `width` by `height`.
pub open spec fn y4m_payloads(input: Seq<u8>, header_end: int, width: i32, height: i32) -> Seq<
    Seq<u8>,
> {
    match yuv420_frame_size(width as int, height as int) {
        Some(size) => y4m_frames_from(input, header_end + 1, size),
        None => Seq::empty(),
    }
}

/// The width, the height and the frame rate of a Y4M stream, or the error in
/// its header: no line end, a header line that is no text, or a field that is
/// no number.
pub open spec fn y4m_parameters(input: Seq<u8>) -> Result<(i32, i32, FrameRate), MediaError> {
    match y4m_header_end(input) {
        None => Err(MediaError::Y4mHeaderMissing),
        Some(end) => if !valid_utf8(input.subrange(0, end)) {
            Err(MediaError::Y4mHeaderNotText)
        } else {
            y4m_header_spec(input.subrange(0, end))
        },
    }
}

/// The pass from Y4M to IVF: a VP9 header with the dimensions and the rate of
/// the header line, unless the settings say otherwise, and a record for every
/// frame, its timestamp the frame's place in the stream.
pub open spec fn y4m_to_ivf_pass(input: Seq<u8>, settings: Settings) -> Pass {
    match y4m_parameters(input) {
        Err(error) => failed(error),
        Ok(detected) => {
            let width = overruled(settings.width, detected.0);
            let height = overruled(settings.height, detected.1);
            let rate = overruled(settings.frame_rate, detected.2);
            after(
                ivf_header_bytes(
                    width as int,
                    height as int,
                    rate.whole_spec(),
                    fourcc_spec(VideoCodec::Vp9),
                ),
                frames_pass(
                    indexed(y4m_payloads(input, y4m_header_end(input)->0, width, height)),
                    0,
                    settings.filter,
                    settings.curve,
                    Container::Ivf,
                ),
            )
        },
    }
}

/// The pass from IVF to Y4M: the header line with the dimensions of the IVF
/// header at 30 frames per second, unless the settings say otherwise, and a
/// record for every frame.
pub open spec fn ivf_to_y4m_pass(input: Seq<u8>, settings: Settings) -> Pass {
    if input.len() < 32 {
        failed(MediaError::IvfHeaderTooShort)
    } else {
        after(
            y4m_header_bytes(
                overruled(settings.width, ivf_width(input)) as int,
                overruled(settings.height, ivf_height(input)) as int,
                overruled(settings.frame_rate, default_rate()).whole_spec() as nat,
            ),
            frames_pass(ivf_frames(input), 0, settings.filter, settings.curve, Container::Y4m),
        )
    }
}

/// The pass from Y4M to Matroska: the VP9 header with the dimensions of the
/// header line, unless the settings say otherwise, one cluster with a block
/// for every frame, its time the frame's place in the stream, and the trailer.
pub open spec fn y4m_to_matroska_pass(input: Seq<u8>, settings: Settings) -> Pass {
    match y4m_parameters(input) {
        Err(error) => failed(error),
        Ok(detected) => {
            let width = overruled(settings.width, detected.0);
            let height = overruled(settings.height, detected.1);
            closed_by(
                after(
                    webm_opening(VideoCodec::Vp9, width, height, settings.frame_duration),
                    frames_pass(
                        indexed(y4m_payloads(input, y4m_header_end(input)->0, width, height)),
                        0,
                        settings.filter,
                        settings.curve,
                        Container::Matroska,
                    ),
                ),
                matroska_trailer_bytes(),
            )
        },
    }
}

/// The pass from Matroska to Y4M: the header line of 640 by 480 at 30 frames
/// per second, unless the settings say otherwise, and a record for every
/// block.
pub open spec fn matroska_to_y4m_pass(input: Seq<u8>, settings: Settings) -> Pass {
    after(
        y4m_header_bytes(
            overruled(settings.width, 640i32) as int,
            overruled(settings.height, 480i32) as int,
            overruled(settings.frame_rate, default_rate()).whole_spec() as nat,
        ),
        frames_pass(
            indexed(matroska_frames(input)),
            0,
            settings.filter,
            settings.curve,
            Container::Y4m,
        ),
    )
}

/// The pass from the format `from` to the format `to`. There are six: between
/// any two different ones of IVF, Matroska and Y4M. There is none for any
/// other pair.
pub open spec fn transcode_pass(
    input: Seq<u8>,
    from: MediaFormatView,
    to: MediaFormatView,
    settings: Settings,
) -> Option<Pass> {
    match (from, to) {
        (MediaFormatView::Ivf, MediaFormatView::Matroska) => Some(
            ivf_to_matroska_pass(input, settings),
        ),
        (MediaFormatView::Matroska, MediaFormatView::Ivf) => Some(
            matroska_to_ivf_pass(input, settings),
        ),
        (MediaFormatView::Y4m, MediaFormatView::Ivf) => Some(y4m_to_ivf_pass(input, settings)),
        (MediaFormatView::Ivf, MediaFormatView::Y4m) => Some(ivf_to_y4m_pass(input, settings)),
        (MediaFormatView::Y4m, MediaFormatView::Matroska) => Some(
            y4m_to_matroska_pass(input, settings),
        ),
        (MediaFormatView::Matroska, MediaFormatView::Y4m) => Some(
            matroska_to_y4m_pass(input, settings),
        ),
        _ => None,
    }
}

/// Whether a call made the conversion from `from` to `to`: where there is a
/// pass between the two, the buffer grew by the bytes of the pass, and the
/// call failed with the error of the pass or not at all; where there is none,
/// the buffer stayed as it was and the call failed with the error that holds
/// the two formats.
pub open spec fn converted(
    result: Result<(), TranscodeError>,
    before: Seq<u8>,
    after: Seq<u8>,
    input: Seq<u8>,
    from: MediaFormatView,
    to: MediaFormatView,
    settings: Settings,
) -> bool {
    match transcode_pass(input, from, to, settings) {
        Some(pass) => after == before + pass.bytes && (match pass.error {
            Some(error) => result matches Err(TranscodeError::Pass(e)) && e == error,
            None => result is Ok,
        }),
        None => after == before && (result matches Err(
            TranscodeError::UnsupportedConversion { input: named_input, output: named_output },
        ) && named_input@ == from && named_output@ == to),
    }
}

/// The settings that `options` stand for.
pub fn pass_settings(options: &TranscodeOptions) -> (settings: PassSettings)
    ensures
        settings@ == settings_of(*options),
{
    let (width, height, frame_rate) = match &options.video_codec {
        Some(video) => (video.width, video.height, video.frame_rate),
        None => (None, None, None),
    };
    let filter = match &options.video_filter {
        Some(config) => Some(parse_video_filter(config.filter_string.as_str())),
        None => None,
    };
    PassSettings {
        width,
        height,
        frame_rate,
        filter,
        contrast_curve: options.contrast_curve,
        frame_duration: options.frame_duration,
    }
}

/// The settings of a pass that overrules nothing and filters nothing.
pub fn plain_pass_settings(frame_duration: u64) -> (settings: PassSettings)
    ensures
        settings@ == plain_settings(frame_duration),
{
    PassSettings {
        width: None,
        height: None,
        frame_rate: None,
        filter: None,
        contrast_curve: None,
        frame_duration,
    }
}

/// The configuration record that a Matroska track carries for `codec`.
pub fn generate_codec_private(codec: VideoCodec, width: i32, height: i32) -> (private: Option<
    Vec<u8>,
>)
    ensures
        private matches Some(bytes) && bytes@ == codec_private_spec(
            codec,
            width as int,
            height as int,
        ),
{
    let mut config: Vec<u8> = Vec::new();
    match codec {
        VideoCodec::Vp9 => {
            config.push(0x01);
            config.push(0x00);
            config.push(0x00);
            config.push(0x00);
            push_u16_le(&mut config, low_u16(width));
            push_u16_le(&mut config, low_u16(height));
        },
        VideoCodec::Av1 => {
            config.push(0x81);
            config.push(0x00);
            config.push(0x00);
            config.push(0x00);
            config.push(0x00);
        },
        VideoCodec::Vp8 => {
            config.push(0x00);
            config.push(0x00);
            config.push(0x00);
            config.push(0x00);
            config.push(0x00);
        },
    }
    assert(config@ =~= codec_private_spec(codec, width as int, height as int));
    Some(config)
}

/// Puts one frame through the filter and into its record.
fn write_frame(
    out: &mut Vec<u8>,
    payload: &[u8],
    timestamp: u64,
    settings: &PassSettings,
    to: Container,
) -> (result: Result<(), MediaError>)
    ensures
        match frame_filtered(payload@, settings@.filter, settings@.curve) {
            Ok(bytes) => result is Ok && final(out)@ == old(out)@ + frame_record(
                to,
                bytes,
                timestamp,
            ),
            Err(error) => result == Err::<(), MediaError>(error) && final(out)@ == old(out)@,
        },
{
    let filtered_frame: Option<Vec<u8>> = match settings.filter {
        Some(filter) => {
            let curve: Option<&[u8; 256]> = match &settings.contrast_curve {
                Some(table) => Some(table),
                None => None,
            };
            match apply_filter(payload, filter, curve) {
                Ok(bytes) => Some(bytes),
                Err(error) => {
                    return Err(error);
                },
            }
        },
        None => None,
    };
    let bytes: &[u8] = match &filtered_frame {
        Some(changed) => changed.as_slice(),
        None => payload,
    };
    match to {
        Container::Ivf => write_ivf_frame(out, bytes, timestamp),
        Container::Matroska => write_matroska_simpleblock(out, bytes, timestamp, 1),
        Container::Y4m => write_y4m_frame(out, bytes, 0),
    }
    Ok(())
}

/// Computes the time of a Matroska block.
fn compute_block_time(timestamp: u64, timebase: u64) -> (time: u64)
    requires
        timebase <= 1_000_000_000,
    ensures
        time == block_time(timestamp, timebase),
{
    assert(timestamp * timebase <= 0xFFFF_FFFF_FFFF_FFFF * 1_000_000_000) by (nonlinear_arith)
        requires
            timestamp <= 0xFFFF_FFFF_FFFF_FFFF,
            timebase <= 1_000_000_000,
    ;
    let product: u128 = timestamp as u128 * timebase as u128;
    ((product % 0x1_0000_0000_0000_0000) / 1_000_000) as u64
}

/// Writes the frames of `frames`, each at its timestamp, or at the block time
/// of its timestamp where there is a time base.
fn write_stamped_frames(
    out: &mut Vec<u8>,
    frames: &Vec<MediaFrame>,
    timebase: Option<u64>,
    settings: &PassSettings,
    to: Container,
) -> (result: Result<(), MediaError>)
    requires
        timebase matches Some(base) ==> base <= 1_000_000_000,
    ensures
        carried_out(
            result,
            old(out)@,
            final(out)@,
            frames_pass(
                stamped(frame_views(frames@), timebase),
                0,
                settings@.filter,
                settings@.curve,
                to,
            ),
        ),
{
    let ghost all = stamped(frame_views(frames@), timebase);
    let ghost filter = settings@.filter;
    let ghost curve = settings@.curve;
    let ghost mut done: Seq<u8> = Seq::empty();
    let mut k: usize = 0;
    assert(out@ =~= old(out)@ + done);
    while k < frames.len()
        invariant
            k <= frames@.len(),
            all == stamped(frame_views(frames@), timebase),
            all.len() == frames@.len(),
            filter == settings@.filter,
            curve == settings@.curve,
            timebase matches Some(base) ==> base <= 1_000_000_000,
            out@ == old(out)@ + done,
            frames_pass(all, 0, filter, curve, to) == after(
                done,
                frames_pass(all, k as int, filter, curve, to),
            ),
        decreases frames@.len() - k,
    {
        let frame = &frames[k];
        let timestamp = match timebase {
            Some(base) => compute_block_time(frame.timestamp, base),
            None => frame.timestamp,
        };
        assert(all[k as int].data == frame.data@ && all[k as int].timestamp == timestamp);
        let ghost before = done;
        let ghost rest = frames_pass(all, k as int, filter, curve, to);
        match write_frame(out, frame.data.as_slice(), timestamp, settings, to) {
            Err(error) => {
                proof {
                    assert(rest == failed(error));
                    assert(after(done, rest).bytes =~= done);
                }
                return Err(error);
            },
            Ok(()) => {
                proof {
                    let payload = frame_filtered(frame.data@, filter, curve)->Ok_0;
                    let record = frame_record(to, payload, timestamp);
                    done = before + record;
                    let next = frames_pass(all, k + 1, filter, curve, to);
                    assert(rest == after(record, next));
                    assert(after(before, rest).bytes =~= after(done, next).bytes);
                    assert(out@ =~= old(out)@ + done);
                }
            },
        }
        k += 1;
    }
    proof {
        let rest = frames_pass(all, k as int, filter, curve, to);
        assert(after(done, rest).bytes =~= done);
    }
    Ok(())
}

/// Writes the payloads of `payloads`, each stamped with its place in the list.
fn write_indexed_frames(
    out: &mut Vec<u8>,
    payloads: &Vec<Vec<u8>>,
    settings: &PassSettings,
    to: Container,
) -> (result: Result<(), MediaError>)
    ensures
        carried_out(
            result,
            old(out)@,
            final(out)@,
            frames_pass(
                indexed(payload_views(payloads@)),
                0,
                settings@.filter,
                settings@.curve,
                to,
            ),
        ),
{
    let ghost all = indexed(payload_views(payloads@));
    let ghost filter = settings@.filter;
    let ghost curve = settings@.curve;
    let ghost mut done: Seq<u8> = Seq::empty();
    let mut k: usize = 0;
    assert(out@ =~= old(out)@ + done);
    while k < payloads.len()
        invariant
            k <= payloads@.len(),
            all == indexed(payload_views(payloads@)),
            all.len() == payloads@.len(),
            filter == settings@.filter,
            curve == settings@.curve,
            out@ == old(out)@ + done,
            frames_pass(all, 0, filter, curve, to) == after(
                done,
                frames_pass(all, k as int, filter, curve, to),
            ),
        decreases payloads@.len() - k,
    {
        let payload = &payloads[k];
        let timestamp = k as u64;
        assert(all[k as int].data == payload@ && all[k as int].timestamp == timestamp);
        let ghost before = done;
        let ghost rest = frames_pass(all, k as int, filter, curve, to);
        match write_frame(out, payload.as_slice(), timestamp, settings, to) {
            Err(error) => {
                proof {
                    assert(rest == failed(error));
                    assert(after(done, rest).bytes =~= done);
                }
                return Err(error);
            },
            Ok(()) => {
                proof {
                    let bytes = frame_filtered(payload@, filter, curve)->Ok_0;
                    let record = frame_record(to, bytes, timestamp);
                    done = before + record;
                    let next = frames_pass(all, k + 1, filter, curve, to);
                    assert(rest == after(record, next));
                    assert(after(before, rest).bytes =~= after(done, next).bytes);
                    assert(out@ =~= old(out)@ + done);
                }
            },
        }
        k += 1;
    }
    proof {
        let rest = frames_pass(all, k as int, filter, curve, to);
        assert(after(done, rest).bytes =~= done);
    }
    Ok(())
}

/// Reads all the frames of an IVF stream of 32 bytes at least.
fn all_ivf_frames(input_data: &[u8]) -> (frames: Vec<MediaFrame>)
    requires
        input_data@.len() >= 32,
    ensures
        frame_views(frames@) == ivf_frames(input_data@),
{
    proof {
        lemma_ivf_frames_len(input_data@, 32);
    }
    let _ = input_data.len();
    match read_ivf_frames(input_data, usize::MAX) {
        Ok(frames) => frames,
        Err(_) => Vec::new(),
    }
}

/// Reads the width, the height and the frame rate of a Y4M stream and finds
/// where its header line ends.
pub fn read_y4m_parameters(input_data: &[u8]) -> (result: Result<
    (usize, (i32, i32, FrameRate)),
    MediaError,
>)
    ensures
        match y4m_parameters(input_data@) {
            Ok(fields) => result matches Ok(found) && found.1 == fields && y4m_header_end(
                input_data@,
            ) == Some(found.0 as int) && found.0 < input_data@.len(),
            Err(error) => result matches Err(e) && e == error,
        },
{
    match find_y4m_header_end(input_data) {
        None => Err(MediaError::Y4mHeaderMissing),
        Some(end) => {
            let header = slice_subrange(input_data, 0, end);
            match text_of(header) {
                None => Err(MediaError::Y4mHeaderNotText),
                Some(_) => match parse_y4m_header(header) {
                    Ok(fields) => Ok((end, fields)),
                    Err(error) => Err(error),
                },
            }
        },
    }
}

/// Reads all the frames of a Y4M stream whose header line ends at
/// `header_end`, for a picture of `width` by `height`.
fn all_y4m_payloads(input_data: &[u8], header_end: usize, width: i32, height: i32) -> (payloads:
    Vec<Vec<u8>>)
    requires
        header_end < input_data@.len(),
    ensures
        payload_views(payloads@) == y4m_payloads(input_data@, header_end as int, width, height),
{
    let _ = input_data.len();
    match frame_size_420(width, height) {
        Some(size) => {
            proof {
                lemma_y4m_frames_len(input_data@, header_end + 1, size as int);
            }
            read_y4m_frames(input_data, header_end + 1, size, usize::MAX)
        },
        None => {
            let payloads: Vec<Vec<u8>> = Vec::new();
            assert(payload_views(payloads@) =~= Seq::<Seq<u8>>::empty());
            payloads
        },
    }
}

/// `setting` where it is given, else `detected`.
fn overrule<T: Copy>(setting: Option<T>, detected: T) -> (value: T)
    ensures
        value == overruled(setting, detected),
{
    match setting {
        Some(value) => value,
        None => detected,
    }
}

/// Writes the header of a WebM file and the opening of its one cluster.
fn write_webm_opening(out: &mut Vec<u8>, codec: VideoCodec, width: i32, height: i32, frame_duration: u64)
    ensures
        final(out)@ == old(out)@ + webm_opening(codec, width, height, frame_duration),
{
    let private = generate_codec_private(codec, width, height);
    let private_bytes: Option<&[u8]> = match &private {
        Some(bytes) => Some(bytes.as_slice()),
        None => None,
    };
    write_webm_header(out, width, height, frame_duration, codec.codec_id(), private_bytes);
    write_matroska_cluster_start(out, 0);
    assert(out@ =~= old(out)@ + webm_opening(codec, width, height, frame_duration));
}

/// Writes a WebM file of the frames `frames`: the opening, a block for every
/// frame at the block time of its timestamp, and the trailer.
fn write_webm_stamped(
    out: &mut Vec<u8>,
    frames: &Vec<MediaFrame>,
    timebase: u64,
    settings: &PassSettings,
    codec: VideoCodec,
    width: i32,
    height: i32,
) -> (result: Result<(), MediaError>)
    requires
        timebase <= 1_000_000_000,
    ensures
        carried_out(
            result,
            old(out)@,
            final(out)@,
            closed_by(
                after(
                    webm_opening(codec, width, height, settings@.frame_duration),
                    frames_pass(
                        stamped(frame_views(frames@), Some(timebase)),
                        0,
                        settings@.filter,
                        settings@.curve,
                        Container::Matroska,
                    ),
                ),
                matroska_trailer_bytes(),
            ),
        ),
{
    let ghost opening = webm_opening(codec, width, height, settings@.frame_duration);
    let ghost pass = frames_pass(
        stamped(frame_views(frames@), Some(timebase)),
        0,
        settings@.filter,
        settings@.curve,
        Container::Matroska,
    );
    write_webm_opening(out, codec, width, height, settings.frame_duration);
    match write_stamped_frames(out, frames, Some(timebase), settings, Container::Matroska) {
        Err(error) => {
            assert(out@ =~= old(out)@ + (opening + pass.bytes));
            Err(error)
        },
        Ok(()) => {
            write_matroska_trailer(out);
            assert(out@ =~= old(out)@ + (opening + pass.bytes + matroska_trailer_bytes()));
            Ok(())
        },
    }
}

/// The pass from IVF to Matroska.
fn ivf_to_matroska(input_data: &[u8], out: &mut Vec<u8>, settings: &PassSettings) -> (result:
    Result<(), MediaError>)
    ensures
        carried_out(result, old(out)@, final(out)@, ivf_to_matroska_pass(input_data@, settings@)),
{
    if input_data.len() < 32 {
        assert(out@ =~= old(out)@ + Seq::<u8>::empty());
        return Err(MediaError::IvfHeaderTooShort);
    }
    let width = overrule(settings.width, read_u16_le(input_data, 24) as i32);
    let height = overrule(settings.height, read_u16_le(input_data, 26) as i32);
    let rate = overrule(settings.frame_rate, FrameRate { num: 30, den: 1 }).whole();
    if rate < 1 {
        assert(out@ =~= old(out)@ + Seq::<u8>::empty());
        return Err(MediaError::FrameRateTooLow);
    }
    let codec = if starts_with_at(input_data, 16, "AV01".as_bytes()) {
        VideoCodec::Av1
    } else if starts_with_at(input_data, 16, "VP80".as_bytes()) {
        VideoCodec::Vp8
    } else {
        VideoCodec::Vp9
    };
    let frames = all_ivf_frames(input_data);
    let timebase: u64 = 1_000_000_000 / rate as u64;
    write_webm_stamped(out, &frames, timebase, settings, codec, width, height)
}

/// The pass from Matroska to IVF.
fn matroska_to_ivf(input_data: &[u8], out: &mut Vec<u8>, settings: &PassSettings) -> (result:
    Result<(), MediaError>)
    ensures
        carried_out(result, old(out)@, final(out)@, matroska_to_ivf_pass(input_data@, settings@)),
{
    let width = overrule(settings.width, 640);
    let height = overrule(settings.height, 480);
    let rate = overrule(settings.frame_rate, FrameRate { num: 30, den: 1 });
    write_ivf_header(out, width, height, rate, VideoCodec::Vp9.fourcc());
    let payloads = parse_matroska_frames(input_data);
    let result = write_indexed_frames(out, &payloads, settings, Container::Ivf);
    assert(out@ =~= old(out)@ + matroska_to_ivf_pass(input_data@, settings@).bytes);
    result
}

/// The pass from Y4M to IVF.
fn y4m_to_ivf(input_data: &[u8], out: &mut Vec<u8>, settings: &PassSettings) -> (result: Result<
    (),
    MediaError,
>)
    ensures
        carried_out(result, old(out)@, final(out)@, y4m_to_ivf_pass(input_data@, settings@)),
{
    match read_y4m_parameters(input_data) {
        Err(error) => {
            assert(out@ =~= old(out)@ + Seq::<u8>::empty());
            Err(error)
        },
        Ok((header_end, detected)) => {
            let width = overrule(settings.width, detected.0);
            let height = overrule(settings.height, detected.1);
            let rate = overrule(settings.frame_rate, detected.2);
            write_ivf_header(out, width, height, rate, VideoCodec::Vp9.fourcc());
            let payloads = all_y4m_payloads(input_data, header_end, width, height);
            let result = write_indexed_frames(out, &payloads, settings, Container::Ivf);
            assert(out@ =~= old(out)@ + y4m_to_ivf_pass(input_data@, settings@).bytes);
            result
        },
    }
}

/// The pass from IVF to Y4M.
fn ivf_to_y4m(input_data: &[u8], out: &mut Vec<u8>, settings: &PassSettings) -> (result: Result<
    (),
    MediaError,
>)
    ensures
        carried_out(result, old(out)@, final(out)@, ivf_to_y4m_pass(input_data@, settings@)),
{
    if input_data.len() < 32 {
        assert(out@ =~= old(out)@ + Seq::<u8>::empty());
        return Err(MediaError::IvfHeaderTooShort);
    }
    let width = overrule(settings.width, read_u16_le(input_data, 24) as i32);
    let height = overrule(settings.height, read_u16_le(input_data, 26) as i32);
    let rate = overrule(settings.frame_rate, FrameRate { num: 30, den: 1 });
    write_y4m_header(out, width, height, rate);
    let frames = all_ivf_frames(input_data);
    let result = write_stamped_frames(out, &frames, None, settings, Container::Y4m);
    assert(out@ =~= old(out)@ + ivf_to_y4m_pass(input_data@, settings@).bytes);
    result
}

/// Writes a WebM file of the payloads `payloads`: the opening, a block for
/// every payload at the time of its place in the list, and the trailer.
fn write_webm_indexed(
    out: &mut Vec<u8>,
    payloads: &Vec<Vec<u8>>,
    settings: &PassSettings,
    width: i32,
    height: i32,
) -> (result: Result<(), MediaError>)
    ensures
        carried_out(
            result,
            old(out)@,
            final(out)@,
            closed_by(
                after(
                    webm_opening(VideoCodec::Vp9, width, height, settings@.frame_duration),
                    frames_pass(
                        indexed(payload_views(payloads@)),
                        0,
                        settings@.filter,
                        settings@.curve,
                        Container::Matroska,
                    ),
                ),
                matroska_trailer_bytes(),
            ),
        ),
{
    let ghost opening = webm_opening(VideoCodec::Vp9, width, height, settings@.frame_duration);
    let ghost frames = frames_pass(
        indexed(payload_views(payloads@)),
        0,
        settings@.filter,
        settings@.curve,
        Container::Matroska,
    );
    write_webm_opening(out, VideoCodec::Vp9, width, height, settings.frame_duration);
    match write_indexed_frames(out, payloads, settings, Container::Matroska) {
        Err(error) => {
            assert(out@ =~= old(out)@ + (opening + frames.bytes));
            Err(error)
        },
        Ok(()) => {
            write_matroska_trailer(out);
            assert(out@ =~= old(out)@ + (opening + frames.bytes + matroska_trailer_bytes()));
            Ok(())
        },
    }
}

/// The pass from Y4M to Matroska.
fn y4m_to_matroska(input_data: &[u8], out: &mut Vec<u8>, settings: &PassSettings) -> (result:
    Result<(), MediaError>)
    ensures
        carried_out(result, old(out)@, final(out)@, y4m_to_matroska_pass(input_data@, settings@)),
{
    match read_y4m_parameters(input_data) {
        Err(error) => {
            assert(out@ =~= old(out)@ + Seq::<u8>::empty());
            Err(error)
        },
        Ok((header_end, detected)) => {
            let width = overrule(settings.width, detected.0);
            let height = overrule(settings.height, detected.1);
            let payloads = all_y4m_payloads(input_data, header_end, width, height);
            write_webm_indexed(out, &payloads, settings, width, height)
        },
    }
}

/// The pass from Matroska to Y4M.
fn matroska_to_y4m(input_data: &[u8], out: &mut Vec<u8>, settings: &PassSettings) -> (result:
    Result<(), MediaError>)
    ensures
        carried_out(result, old(out)@, final(out)@, matroska_to_y4m_pass(input_data@, settings@)),
{
    let width = overrule(settings.width, 640);
    let height = overrule(settings.height, 480);
    let rate = overrule(settings.frame_rate, FrameRate { num: 30, den: 1 });
    write_y4m_header(out, width, height, rate);
    let payloads = parse_matroska_frames(input_data);
    let result = write_indexed_frames(out, &payloads, settings, Container::Y4m);
    assert(out@ =~= old(out)@ + matroska_to_y4m_pass(input_data@, settings@).bytes);
    result
}

/// Transcodes an IVF stream to Matroska, appending to `out`.
pub fn transcode_ivf_to_matroska(input_data: &[u8], out: &mut Vec<u8>, options: &TranscodeOptions) -> (result:
    Result<(), MediaError>)
    ensures
        carried_out(
            result,
            old(out)@,
            final(out)@,
            ivf_to_matroska_pass(input_data@, settings_of(*options)),
        ),
{
    let settings = pass_settings(options);
    ivf_to_matroska(input_data, out, &settings)
}

/// Transcodes a Matroska stream to IVF, appending to `out`.
pub fn transcode_matroska_to_ivf(input_data: &[u8], out: &mut Vec<u8>, options: &TranscodeOptions) -> (result:
    Result<(), MediaError>)
    ensures
        carried_out(
            result,
            old(out)@,
            final(out)@,
            matroska_to_ivf_pass(input_data@, settings_of(*options)),
        ),
{
    let settings = pass_settings(options);
    matroska_to_ivf(input_data, out, &settings)
}

/// Transcodes a Y4M stream to IVF, appending to `out`.
pub fn transcode_y4m_to_ivf(input_data: &[u8], out: &mut Vec<u8>, options: &TranscodeOptions) -> (result:
    Result<(), MediaError>)
    ensures
        carried_out(
            result,
            old(out)@,
            final(out)@,
            y4m_to_ivf_pass(input_data@, settings_of(*options)),
        ),
{
    let settings = pass_settings(options);
    y4m_to_ivf(input_data, out, &settings)
}

/// Transcodes an IVF stream to Y4M, appending to `out`.
pub fn transcode_ivf_to_y4m(input_data: &[u8], out: &mut Vec<u8>, options: &TranscodeOptions) -> (result:
    Result<(), MediaError>)
    ensures
        carried_out(
            result,
            old(out)@,
            final(out)@,
            ivf_to_y4m_pass(input_data@, settings_of(*options)),
        ),
{
    let settings = pass_settings(options);
    ivf_to_y4m(input_data, out, &settings)
}

/// Transcodes a Y4M stream to Matroska, appending to `out`.
pub fn transcode_y4m_to_matroska(input_data: &[u8], out: &mut Vec<u8>, options: &TranscodeOptions) -> (result:
    Result<(), MediaError>)
    ensures
        carried_out(
            result,
            old(out)@,
            final(out)@,
            y4m_to_matroska_pass(input_data@, settings_of(*options)),
        ),
{
    let settings = pass_settings(options);
    y4m_to_matroska(input_data, out, &settings)
}

/// Transcodes a Matroska stream to Y4M, appending to `out`.
pub fn transcode_matroska_to_y4m(input_data: &[u8], out: &mut Vec<u8>, options: &TranscodeOptions) -> (result:
    Result<(), MediaError>)
    ensures
        carried_out(
            result,
            old(out)@,
            final(out)@,
            matroska_to_y4m_pass(input_data@, settings_of(*options)),
        ),
{
    let settings = pass_settings(options);
    matroska_to_y4m(input_data, out, &settings)
}

/// The outcome of a pass as the outcome of a conversion.
fn pass_outcome(result: Result<(), MediaError>) -> (outcome: Result<(), TranscodeError>)
    ensures
        match result {
            Ok(()) => outcome is Ok,
            Err(error) => outcome matches Err(TranscodeError::Pass(e)) && e == error,
        },
{
    match result {
        Ok(()) => Ok(()),
        Err(error) => Err(TranscodeError::Pass(error)),
    }
}

/// Transcodes a stream of the format `input_format` to the format
/// `output_format`, appending to `out`. A pair of formats between which
/// nothing is converted is refused with an error that holds both.
pub fn transcode_between(
    input_data: &[u8],
    out: &mut Vec<u8>,
    input_format: &MediaFormat,
    output_format: &MediaFormat,
    settings: &PassSettings,
) -> (result: Result<(), TranscodeError>)
    ensures
        converted(
            result,
            old(out)@,
            final(out)@,
            input_data@,
            input_format@,
            output_format@,
            settings@,
        ),
{
    match (input_format, output_format) {
        (MediaFormat::Ivf, MediaFormat::Matroska) => pass_outcome(
            ivf_to_matroska(input_data, out, settings),
        ),
        (MediaFormat::Matroska, MediaFormat::Ivf) => pass_outcome(
            matroska_to_ivf(input_data, out, settings),
        ),
        (MediaFormat::Y4m, MediaFormat::Ivf) => pass_outcome(y4m_to_ivf(input_data, out, settings)),
        (MediaFormat::Ivf, MediaFormat::Y4m) => pass_outcome(ivf_to_y4m(input_data, out, settings)),
        (MediaFormat::Y4m, MediaFormat::Matroska) => pass_outcome(
            y4m_to_matroska(input_data, out, settings),
        ),
        (MediaFormat::Matroska, MediaFormat::Y4m) => pass_outcome(
            matroska_to_y4m(input_data, out, settings),
        ),
        _ => Err(
            TranscodeError::UnsupportedConversion {
                input: copy_format(input_format),
                output: copy_format(output_format),
            },
        ),
    }
}

/// Transcodes the stream `input_data` as `options` ask, appending to `out`.
/// The formats are those of the input path and of the output path of the
/// options.
pub fn transcode(input_data: &[u8], out: &mut Vec<u8>, options: &TranscodeOptions) -> (result:
    Result<(), TranscodeError>)
    ensures
        converted(
            result,
            old(out)@,
            final(out)@,
            input_data@,
            format_of_path(options.input_path@),
            format_of_path(options.output_path@),
            settings_of(*options),
        ),
{
    let input_format = detect_format(options.input_path.as_str());
    let output_format = detect_format(options.output_path.as_str());
    let settings = pass_settings(options);
    transcode_between(input_data, out, &input_format, &output_format, &settings)
}

/// Converts the stream `input_data` from the format of `input_path` to the
/// format of `output_path`, appending to `out`. Nothing is overruled and
/// nothing is filtered.
pub fn transform_format(
    input_data: &[u8],
    input_path: &str,
    output_path: &str,
    out: &mut Vec<u8>,
    frame_duration: u64,
) -> (result: Result<(), TranscodeError>)
    ensures
        converted(
            result,
            old(out)@,
            final(out)@,
            input_data@,
            format_of_path(input_path@),
            format_of_path(output_path@),
            plain_settings(frame_duration),
        ),
{
    let input_format = detect_format(input_path);
    let output_format = detect_format(output_path);
    let settings = plain_pass_settings(frame_duration);
    transcode_between(input_data, out, &input_format, &output_format, &settings)
}

/// There is a pass between two formats exactly where both are known and they
/// differ: each of the six ordered pairs of IVF, Matroska and Y4M has one, and
/// a pair of equal formats has none, nor has a pair with an unknown format.
pub proof fn lemma_supported_pairs(
    input: Seq<u8>,
    from: MediaFormatView,
    to: MediaFormatView,
    settings: Settings,
)
    ensures
        transcode_pass(input, from, to, settings) is Some <==> !(from is Unknown) && !(to
            is Unknown) && from != to,
{
}

/// One frame taken out of a stream: its number, counted from 0, the
/// dimensions that the stream's header gives, and its bytes.
#[derive(Debug, Clone, PartialEq, Eq)]
pub struct FrameData {
    pub frame_number: u32,
    pub width: u32,
    pub height: u32,
    pub yuv_data: Vec<u8>,
}

/// An extracted frame as contracts see it.
pub struct FrameDataView {
    pub frame_number: u32,
    pub width: u32,
    pub height: u32,
    pub yuv_data: Seq<u8>,
}

impl View for FrameData {
    type V = FrameDataView;

    open spec fn view(&self) -> FrameDataView {
        FrameDataView {
            frame_number: self.frame_number,
            width: self.width,
            height: self.height,
            yuv_data: self.yuv_data@,
        }
    }
}

/// Extracted frames as contracts see them.
pub open spec fn frame_data_views(frames: Seq<FrameData>) -> Seq<FrameDataView> {
    Seq::new(frames.len(), |i: int| frames[i]@)
}

/// The payloads as extracted frames of `width` by `height`, numbered in
/// order.
pub open spec fn numbered(payloads: Seq<Seq<u8>>, width: u32, height: u32) -> Seq<FrameDataView> {
    Seq::new(
        payloads.len(),
        |i: int| FrameDataView { frame_number: i as u32, width, height, yuv_data: payloads[i] },
    )
}

/// The payloads of frames.
pub open spec fn payloads_of(frames: Seq<FrameView>) -> Seq<Seq<u8>> {
    Seq::new(frames.len(), |i: int| frames[i].data)
}

/// The first frames of a stream of the format `format`, `max_frames` at most,
/// with the dimensions of its header: of an IVF stream of 32 bytes at least,
/// and of a Y4M stream with a sound header line. No other format has frames
/// extracted.
pub open spec fn extraction_spec(data: Seq<u8>, format: MediaFormatView, max_frames: u32) -> Result<
    Seq<FrameDataView>,
    MediaError,
> {
    match format {
        MediaFormatView::Ivf => if data.len() < 32 {
            Err(MediaError::IvfHeaderTooShort)
        } else {
            Ok(
                numbered(
                    payloads_of(at_most(ivf_frames(data), max_frames as int)),
                    u16_at(data, 24) as u32,
                    u16_at(data, 26) as u32,
                ),
            )
        },
        MediaFormatView::Y4m => match y4m_parameters(data) {
            Err(error) => Err(error),
            Ok(fields) => Ok(
                numbered(
                    at_most(
                        y4m_payloads(data, y4m_header_end(data)->0, fields.0, fields.1),
                        max_frames as int,
                    ),
                    if fields.0 >= 0 {
                        fields.0 as u32
                    } else {
                        0
                    },
                    if fields.1 >= 0 {
                        fields.1 as u32
                    } else {
                        0
                    },
                ),
            ),
        },
        _ => Err(MediaError::UnsupportedExtraction),
    }
}

/// Numbers payloads as extracted frames.
fn number_frames(payloads: Vec<Vec<u8>>, width: u32, height: u32) -> (frames: Vec<FrameData>)
    requires
        payloads@.len() <= u32::MAX,
    ensures
        frame_data_views(frames@) == numbered(payload_views(payloads@), width, height),
{
    let mut frames: Vec<FrameData> = Vec::new();
    let mut payloads = payloads;
    let ghost all = payload_views(payloads@);
    let count = payloads.len();
    let mut k: usize = 0;
    while k < count
        invariant
            k <= count,
            count == payloads@.len(),
            count <= u32::MAX,
            frames@.len() == k,
            forall|i: int| k <= i < count ==> (#[trigger] payloads@[i])@ == all[i],
            all.len() == count,
            forall|i: int|
                0 <= i < k ==> (#[trigger] frames@[i])@ == (FrameDataView {
                    frame_number: i as u32,
                    width,
                    height,
                    yuv_data: all[i],
                }),
        decreases count - k,
    {
        let mut taken: Vec<u8> = Vec::new();
        let ghost before = payloads@;
        std::mem::swap(&mut taken, &mut payloads[k]);
        frames.push(FrameData { frame_number: k as u32, width, height, yuv_data: taken });
        k += 1;
    }
    assert(frame_data_views(frames@) =~= numbered(all, width, height));
    frames
}

/// Takes the first frames out of a stream of the format `format`,
/// `max_frames` of them at most.
pub fn extract_frames(data: &[u8], format: &MediaFormat, max_frames: u32) -> (result: Result<
    Vec<FrameData>,
    MediaError,
>)
    ensures
        match extraction_spec(data@, format@, max_frames) {
            Ok(frames) => result matches Ok(found) && frame_data_views(found@) == frames,
            Err(error) => result matches Err(e) && e == error,
        },
{
    match format {
        MediaFormat::Ivf => match read_ivf_frames(data, max_frames as usize) {
            Err(error) => Err(error),
            Ok(frames) => {
                let width = read_u16_le(data, 24) as u32;
                let height = read_u16_le(data, 26) as u32;
                let mut payloads: Vec<Vec<u8>> = Vec::new();
                let mut frames = frames;
                let ghost all = frame_views(frames@);
                let count = frames.len();
                let mut k: usize = 0;
                while k < count
                    invariant
                        k <= count,
                        count == frames@.len(),
                        all.len() == count,
                        payloads@.len() == k,
                        forall|i: int| k <= i < count ==> (#[trigger] frames@[i])@ == all[i],
                        forall|i: int| 0 <= i < k ==> (#[trigger] payloads@[i])@ == all[i].data,
                    decreases count - k,
                {
                    let mut taken: Vec<u8> = Vec::new();
                    std::mem::swap(&mut taken, &mut frames[k].data);
                    payloads.push(taken);
                    k += 1;
                }
                assert(payload_views(payloads@) =~= payloads_of(all));
                Ok(number_frames(payloads, width, height))
            },
        },
        MediaFormat::Y4m => match read_y4m_parameters(data) {
            Err(error) => Err(error),
            Ok((header_end, fields)) => {
                let _ = data.len();
                let payloads = match frame_size_420(fields.0, fields.1) {
                    Some(size) => read_y4m_frames(data, header_end + 1, size, max_frames as usize),
                    None => Vec::new(),
                };
                assert(payload_views(payloads@) =~= at_most(
                    y4m_payloads(data@, header_end as int, fields.0, fields.1),
                    max_frames as int,
                ));
                let width: u32 = if fields.0 >= 0 {
                    fields.0 as u32
                } else {
                    0
                };
                let height: u32 = if fields.1 >= 0 {
                    fields.1 as u32
                } else {
                    0
                };
                Ok(number_frames(payloads, width, height))
            },
        },
        _ => Err(MediaError::UnsupportedExtraction),
    }
}

/// Without a filter, the pass over frames into IVF never fails, and it writes
/// the records of the frames, one behind the other.
pub proof fn lemma_ivf_pass_writes_records(frames: Seq<FrameView>, k: int, curve: Option<Seq<u8>>)
    requires
        0 <= k <= frames.len(),
    ensures
        frames_pass(frames, k, None, curve, Container::Ivf).error is None,
        frames_pass(frames, k, None, curve, Container::Ivf).bytes == ivf_records(
            frames.subrange(k, frames.len() as int),
        ),
    decreases frames.len() - k,
{
    let rest = frames.subrange(k, frames.len() as int);
    if k < frames.len() {
        lemma_ivf_pass_writes_records(frames, k + 1, curve);
        assert(rest[0] == frames[k]);
        assert(rest.drop_first() =~= frames.subrange(k + 1, frames.len() as int));
    } else {
        assert(rest.len() == 0);
    }
}

/// What a pass from Matroska to IVF without a filter writes reads back, from
/// the end of the header of 28 bytes on, as the blocks of the source, each
/// stamped with its place in the stream.
pub proof fn lemma_matroska_to_ivf_reads_back(input: Seq<u8>, settings: Settings)
    requires
        settings.filter is None,
    ensures
        matroska_to_ivf_pass(input, settings).error is None,
        ivf_frames_from(matroska_to_ivf_pass(input, settings).bytes, 28) == indexed(
            matroska_frames(input),
        ),
{
    let frames = indexed(matroska_frames(input));
    let header = ivf_header_bytes(
        overruled(settings.width, 640i32) as int,
        overruled(settings.height, 480i32) as int,
        overruled(settings.frame_rate, default_rate()).whole_spec(),
        fourcc_spec(VideoCodec::Vp9),
    );
    reveal_strlit("VP90");
    vstd::utf8::is_ascii_chars_encode_utf8("VP90"@);
    lemma_ivf_header_fields(
        overruled(settings.width, 640i32) as int,
        overruled(settings.height, 480i32) as int,
        overruled(settings.frame_rate, default_rate()).whole_spec(),
        fourcc_spec(VideoCodec::Vp9),
    );
    lemma_ivf_pass_writes_records(frames, 0, settings.curve);
    assert(frames.subrange(0, frames.len() as int) =~= frames);
    assert forall|i: int| 0 <= i < frames.len() implies (#[trigger] frames[i]).data.len()
        < 0x1_0000_0000 by {
        lemma_matroska_frames_sized(input, matroska_scan_start(input), i);
    }
    lemma_ivf_frames_round_trip(header, frames);
}

} // verus!
