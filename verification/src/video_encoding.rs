//! Video codecs, encoder settings and the encoders' common interface. The
//! encoders check their input and count frames; they produce no bitstream.

use vstd::prelude::*;
use vstd::slice::slice_subrange;
use vstd::string::*;
use crate::error::MediaError;

verus! {

/// Supported video codecs.
#[derive(Debug, Clone, Copy, PartialEq, Eq, Structural)]
pub enum VideoCodec {
    /// AV1.
    Av1,
    /// VP9.
    Vp9,
    /// VP8.
    Vp8,
}

/// The FourCC by which an IVF header names a codec.
pub open spec fn fourcc_spec(codec: VideoCodec) -> Seq<u8> {
    match codec {
        VideoCodec::Av1 => "AV01".spec_bytes(),
        VideoCodec::Vp9 => "VP90".spec_bytes(),
        VideoCodec::Vp8 => "VP80".spec_bytes(),
    }
}

/// The codec id by which a Matroska track names a codec.
pub open spec fn codec_id_spec(codec: VideoCodec) -> Seq<char> {
    match codec {
        VideoCodec::Av1 => "V_AV1"@,
        VideoCodec::Vp9 => "V_VP9"@,
        VideoCodec::Vp8 => "V_VP8"@,
    }
}

/// The bytes of a four-letter ASCII text.
proof fn lemma_four_letters(text: &str, a: char, b: char, c: char, d: char)
    requires
        text@ =~= seq![a, b, c, d],
        a <= '\u{7f}',
        b <= '\u{7f}',
        c <= '\u{7f}',
        d <= '\u{7f}',
    ensures
        text.spec_bytes() == seq![a as u8, b as u8, c as u8, d as u8],
{
    vstd::utf8::is_ascii_chars_encode_utf8(text@);
    assert(text.spec_bytes() =~= seq![a as u8, b as u8, c as u8, d as u8]);
}

impl VideoCodec {
    /// The FourCC of the codec for an IVF header.
    pub fn fourcc(&self) -> (tag: [u8; 4])
        ensures
            tag@ == fourcc_spec(*self),
    {
        proof {
            reveal_strlit("AV01");
            reveal_strlit("VP90");
            reveal_strlit("VP80");
            lemma_four_letters("AV01", 'A', 'V', '0', '1');
            lemma_four_letters("VP90", 'V', 'P', '9', '0');
            lemma_four_letters("VP80", 'V', 'P', '8', '0');
        }
        match self {
            VideoCodec::Av1 => {
                let tag: [u8; 4] = [0x41, 0x56, 0x30, 0x31];
                assert(tag@ =~= seq![0x41u8, 0x56u8, 0x30u8, 0x31u8]);
                tag
            },
            VideoCodec::Vp9 => {
                let tag: [u8; 4] = [0x56, 0x50, 0x39, 0x30];
                assert(tag@ =~= seq![0x56u8, 0x50u8, 0x39u8, 0x30u8]);
                tag
            },
            VideoCodec::Vp8 => {
                let tag: [u8; 4] = [0x56, 0x50, 0x38, 0x30];
                assert(tag@ =~= seq![0x56u8, 0x50u8, 0x38u8, 0x30u8]);
                tag
            },
        }
    }

    /// The codec id of the codec for a Matroska track.
    pub fn codec_id(&self) -> (id: &'static str)
        ensures
            id@ == codec_id_spec(*self),
    {
        match self {
            VideoCodec::Av1 => "V_AV1",
            VideoCodec::Vp9 => "V_VP9",
            VideoCodec::Vp8 => "V_VP8",
        }
    }
}

/// Settings of a video encoder.
#[derive(Debug, Clone, Copy, PartialEq, Eq, Structural)]
pub struct EncoderConfig {
    /// The codec to encode with.
    pub codec: VideoCodec,
    /// The width of the picture.
    pub width: u32,
    /// The height of the picture.
    pub height: u32,
    /// Frames per second.
    pub frame_rate: u32,
    /// The numerator of the time base.
    pub timebase_num: u32,
    /// The denominator of the time base.
    pub timebase_den: u32,
    /// Bits per second.
    pub bitrate: u32,
    /// Frames between keyframes.
    pub keyframe_interval: u32,
    /// The quality setting, from 0 to 63.
    pub quality: u32,
}

impl Default for EncoderConfig {
    fn default() -> (config: Self)
        ensures
            config == (EncoderConfig {
                codec: VideoCodec::Vp9,
                width: 640,
                height: 480,
                frame_rate: 30,
                timebase_num: 1,
                timebase_den: 30,
                bitrate: 2_000_000,
                keyframe_interval: 30,
                quality: 32,
            }),
    {
        EncoderConfig {
            codec: VideoCodec::Vp9,
            width: 640,
            height: 480,
            frame_rate: 30,
            timebase_num: 1,
            timebase_den: 30,
            bitrate: 2_000_000,
            keyframe_interval: 30,
            quality: 32,
        }
    }
}

/// An encoded frame.
#[derive(Debug, Clone)]
pub struct EncodedFrame {
    /// The compressed bitstream.
    pub data: Vec<u8>,
    /// The timestamp in units of the time base.
    pub timestamp: u64,
    /// Whether this is a keyframe.
    pub is_keyframe: bool,
}

/// The bytes of one planar 4:2:0 frame of the dimensions of `config`.
pub open spec fn expected_frame_len(config: EncoderConfig) -> int {
    config.width * config.height + 2 * ((config.width * config.height) / 4)
}

/// A video encoder.
pub trait VideoEncoder {
    /// The settings of the encoder.
    spec fn settings(&self) -> EncoderConfig;

    /// The number of frames that the encoder has taken in, counted in 64 bits.
    spec fn frames_taken(&self) -> u64;

    /// Takes in one planar 4:2:0 frame. A frame of another size than the
    /// settings ask for is refused and not counted.
    fn encode_frame(&mut self, yuv_data: &[u8], timestamp: u64) -> (result: Result<
        Option<EncodedFrame>,
        MediaError,
    >)
        ensures
            final(self).settings() == old(self).settings(),
            yuv_data@.len() != expected_frame_len(old(self).settings()) ==> {
                &&& result is Err
                &&& result->Err_0 == MediaError::InvalidYuvSize
                &&& final(self).frames_taken() == old(self).frames_taken()
            },
            yuv_data@.len() == expected_frame_len(old(self).settings()) ==> {
                &&& result is Ok
                &&& final(self).frames_taken() as int == (old(self).frames_taken() + 1)
                    % 0x1_0000_0000_0000_0000
            },
    ;

    /// Hands out the frames that the encoder still holds.
    fn flush(&mut self) -> (result: Result<Vec<EncodedFrame>, MediaError>)
        ensures
            final(self).settings() == old(self).settings(),
            final(self).frames_taken() == old(self).frames_taken(),
    ;

    /// The settings of the encoder.
    fn config(&self) -> (config: &EncoderConfig)
        ensures
            *config == self.settings(),
    ;
}

/// Whether `len` bytes make one frame of the dimensions of `config`.
fn is_frame_len(config: &EncoderConfig, len: usize) -> (fits: bool)
    ensures
        fits == (len == expected_frame_len(*config)),
{
    let width = config.width as u128;
    let height = config.height as u128;
    assert(width * height <= 0xFFFF_FFFF * 0xFFFF_FFFF) by (nonlinear_arith)
        requires
            width <= 0xFFFF_FFFF,
            height <= 0xFFFF_FFFF,
    ;
    let luma = width * height;
    len as u128 == luma + 2 * (luma / 4)
}

/// The next count of frames, in 64 bits.
fn next_count(count: u64) -> (next: u64)
    ensures
        next as int == (count + 1) % 0x1_0000_0000_0000_0000,
{
    if count == u64::MAX {
        0
    } else {
        count + 1
    }
}

/// An AV1 encoder.
pub struct Av1Encoder {
    config: EncoderConfig,
    frame_count: u64,
}

impl Av1Encoder {
    /// An AV1 encoder with the settings `config`, which has taken in no frame.
    pub fn new(config: EncoderConfig) -> (result: Result<Self, MediaError>)
        ensures
            result matches Ok(encoder) && encoder.settings() == config && encoder.frames_taken()
                == 0,
    {
        Ok(Av1Encoder { config, frame_count: 0 })
    }
}

impl VideoEncoder for Av1Encoder {
    closed spec fn settings(&self) -> EncoderConfig {
        self.config
    }

    closed spec fn frames_taken(&self) -> u64 {
        self.frame_count
    }

    /// Takes in one frame and counts it. No encoded frame comes out.
    fn encode_frame(&mut self, yuv_data: &[u8], timestamp: u64) -> (result: Result<
        Option<EncodedFrame>,
        MediaError,
    >)
        ensures
            result is Ok ==> result->Ok_0 is None,
    {
        if !is_frame_len(&self.config, yuv_data.len()) {
            return Err(MediaError::InvalidYuvSize);
        }
        self.frame_count = next_count(self.frame_count);
        Ok(None)
    }

    /// Hands out no frames: the encoder holds none.
    fn flush(&mut self) -> (result: Result<Vec<EncodedFrame>, MediaError>)
        ensures
            result matches Ok(frames) && frames@.len() == 0,
    {
        Ok(Vec::new())
    }

    fn config(&self) -> (config: &EncoderConfig) {
        &self.config
    }
}

/// A VP9 encoder.
pub struct Vp9Encoder {
    config: EncoderConfig,
    frame_count: u64,
}

impl Vp9Encoder {
    /// A VP9 encoder with the settings `config`, which has taken in no frame.
    pub fn new(config: EncoderConfig) -> (result: Result<Self, MediaError>)
        ensures
            result matches Ok(encoder) && encoder.settings() == config && encoder.frames_taken()
                == 0,
    {
        Ok(Vp9Encoder { config, frame_count: 0 })
    }
}

impl VideoEncoder for Vp9Encoder {
    closed spec fn settings(&self) -> EncoderConfig {
        self.config
    }

    closed spec fn frames_taken(&self) -> u64 {
        self.frame_count
    }

    /// Takes in one frame and counts it. No encoded frame comes out.
    fn encode_frame(&mut self, yuv_data: &[u8], timestamp: u64) -> (result: Result<
        Option<EncodedFrame>,
        MediaError,
    >)
        ensures
            result is Ok ==> result->Ok_0 is None,
    {
        if !is_frame_len(&self.config, yuv_data.len()) {
            return Err(MediaError::InvalidYuvSize);
        }
        self.frame_count = next_count(self.frame_count);
        Ok(None)
    }

    /// Hands out no frames: the encoder holds none.
    fn flush(&mut self) -> (result: Result<Vec<EncodedFrame>, MediaError>)
        ensures
            result matches Ok(frames) && frames@.len() == 0,
    {
        Ok(Vec::new())
    }

    fn config(&self) -> (config: &EncoderConfig) {
        &self.config
    }
}

/// The encoder of one of the codecs.
pub enum Encoder {
    Av1(Av1Encoder),
    Vp9(Vp9Encoder),
}

impl Encoder {
    /// The settings of the encoder.
    pub open spec fn settings(&self) -> EncoderConfig {
        match self {
            Encoder::Av1(encoder) => encoder.settings(),
            Encoder::Vp9(encoder) => encoder.settings(),
        }
    }
}

/// Makes the encoder for the codec of `config`. There is none for VP8.
pub fn create_encoder(config: EncoderConfig) -> (result: Result<Encoder, MediaError>)
    ensures
        match config.codec {
            VideoCodec::Av1 => result matches Ok(Encoder::Av1(encoder)) && encoder.settings()
                == config && encoder.frames_taken() == 0,
            VideoCodec::Vp9 => result matches Ok(Encoder::Vp9(encoder)) && encoder.settings()
                == config && encoder.frames_taken() == 0,
            VideoCodec::Vp8 => result matches Err(error) && error
                == MediaError::EncoderUnavailable,
        },
{
    match config.codec {
        VideoCodec::Av1 => match Av1Encoder::new(config) {
            Ok(encoder) => Ok(Encoder::Av1(encoder)),
            Err(error) => Err(error),
        },
        VideoCodec::Vp9 => match Vp9Encoder::new(config) {
            Ok(encoder) => Ok(Encoder::Vp9(encoder)),
            Err(error) => Err(error),
        },
        VideoCodec::Vp8 => Err(MediaError::EncoderUnavailable),
    }
}

/// A raw video frame of 8-bit samples in three planes, as the crate `v_frame`
/// holds it. The frame's type is generic over a pixel trait of that crate, so
/// it is kept behind this struct; what it holds is told by `frame_samples` and
/// `plane_extent`.
#[verifier::external_body]
pub struct VideoFrame {
    pub frame: v_frame::frame::Frame<u8>,
}

/// The samples that a frame holds: for a plane, a row and a column within the
/// plane's extent, the sample that stands there.
pub uninterp spec fn frame_samples(frame: VideoFrame) -> Map<(int, int, int), u8>;

/// The extent of a plane of a frame: the length of its rows and their number,
/// as laid out when the frame was made.
pub uninterp spec fn plane_extent(frame: VideoFrame, plane: int) -> (int, int);

/// `n` rounded up to a multiple of `unit`.
pub open spec fn aligned(n: int, unit: int) -> int {
    (n + unit - 1) / unit * unit
}

/// The extent that a plane of a 4:2:0 frame of `width` by `height` is laid out
/// with: both dimensions are rounded up to a multiple of 8, the chroma planes
/// take half of them, and the rows are rounded up to a multiple of 64.
pub open spec fn made_extent(width: int, height: int, plane: int) -> (int, int) {
    if plane == 0 {
        (aligned(aligned(width, 8), 64), aligned(height, 8))
    } else {
        (aligned(aligned(width, 8) / 2, 64), aligned(height, 8) / 2)
    }
}

/// Whether (`row`, `column`) lies within the extent of `plane` of `frame`.
pub open spec fn within_extent(frame: VideoFrame, plane: int, row: int, column: int) -> bool {
    0 <= plane < 3 && 0 <= row < plane_extent(frame, plane).1 && 0 <= column < plane_extent(
        frame,
        plane,
    ).0
}

/// Whether a copy of `source`, in rows of `source_stride` samples, into
/// `plane` of `frame` reaches (`row`, `column`): the copy takes the whole rows
/// of the source, as many as the plane has, and of each as much as a row of
/// the plane holds.
pub open spec fn copy_reaches(
    frame: VideoFrame,
    plane: int,
    source_len: int,
    source_stride: int,
    row: int,
    column: int,
) -> bool {
    &&& 0 <= row < plane_extent(frame, plane).1
    &&& row < source_len / source_stride
    &&& 0 <= column < plane_extent(frame, plane).0
    &&& column < source_stride
}

/// A new 4:2:0 frame without padding, by `Frame::new_with_padding` of
/// `v_frame`: the planes are laid out as `made_extent` says, and every sample
/// is 128. The sizes must be such that the layout can be computed in `usize`.
#[verifier::external_body]
pub(crate) fn new_frame_420(width: usize, height: usize) -> (frame: VideoFrame)
    requires
        width + 71 <= usize::MAX,
        height + 7 <= usize::MAX,
        aligned(aligned(width as int, 8), 64) * aligned(height as int, 8) <= usize::MAX,
    ensures
        forall|plane: int|
            0 <= plane < 3 ==> #[trigger] plane_extent(frame, plane) == made_extent(
                width as int,
                height as int,
                plane,
            ),
        forall|plane: int, row: int, column: int|
            within_extent(frame, plane, row, column) ==> #[trigger] frame_samples(frame)[(
                plane,
                row,
                column,
            )] == 128,
{
    VideoFrame {
        frame: v_frame::frame::Frame::new_with_padding(
            width,
            height,
            v_frame::pixel::ChromaSampling::Cs420,
            0,
        ),
    }
}

/// Copies 8-bit samples into one plane of a frame, by `Plane::copy_from_raw_u8`
/// of `v_frame`: the samples that the copy reaches become those of the source,
/// row by row, and all others stay; no plane changes its extent. The rows of
/// the plane and of the source must not be empty.
#[verifier::external_body]
pub(crate) fn copy_into_plane(
    frame: &mut VideoFrame,
    plane: usize,
    source: &[u8],
    source_stride: usize,
)
    requires
        plane < 3,
        source_stride > 0,
        plane_extent(*old(frame), plane as int).0 > 0,
    ensures
        forall|p: int| #[trigger] plane_extent(*final(frame), p) == plane_extent(*old(frame), p),
        forall|p: int, row: int, column: int|
            #[trigger] frame_samples(*final(frame))[(p, row, column)] == if p == plane
                && copy_reaches(
                *old(frame),
                p,
                source@.len() as int,
                source_stride as int,
                row,
                column,
            ) {
                source@[row * source_stride + column]
            } else {
                frame_samples(*old(frame))[(p, row, column)]
            },
{
    frame.frame.planes[plane].copy_from_raw_u8(source, source_stride, 1);
}

/// The number of bytes of the luma plane and of one chroma plane of a planar
/// 4:2:0 picture.
pub open spec fn plane_sizes(width: int, height: int) -> (int, int) {
    (width * height, (width * height) / 4)
}

/// Whether a frame can be made of `len` bytes for a picture of `width` by
/// `height`, and if not, why: the bytes must hold the three planes, the width
/// must be 2 at least, and the layout must be computable in `usize`.
pub open spec fn frame_fit(len: int, width: int, height: int) -> Result<(), MediaError> {
    let sizes = plane_sizes(width, height);
    if len < sizes.0 + 2 * sizes.1 {
        Err(MediaError::InsufficientYuvData)
    } else if width < 2 || width + 71 > usize::MAX || height + 7 > usize::MAX || aligned(
        aligned(width, 8),
        64,
    ) * aligned(height, 8) > usize::MAX {
        Err(MediaError::InvalidFrameDimensions)
    } else {
        Ok(())
    }
}

/// The number of rows of a chroma plane that the bytes of a picture fill.
pub open spec fn chroma_rows(width: int, height: int) -> int {
    let filled = plane_sizes(width, height).1 / (width / 2);
    if filled < aligned(height, 8) / 2 {
        filled
    } else {
        aligned(height, 8) / 2
    }
}

/// Whether `frame` holds the picture of `width` by `height` that `data` holds
/// plane after plane: every luma sample, and of each chroma plane as many
/// rows of half the width as the bytes fill. What the picture does not reach
/// of the planes is 128.
pub open spec fn holds_picture(frame: VideoFrame, data: Seq<u8>, width: int, height: int) -> bool {
    let sizes = plane_sizes(width, height);
    let half = width / 2;
    &&& forall|row: int, column: int|
        within_extent(frame, 0, row, column) && (row >= height || column >= width)
            ==> #[trigger] frame_samples(frame)[(0, row, column)] == 128
    &&& forall|plane: int, row: int, column: int|
        1 <= plane <= 2 && within_extent(frame, plane, row, column) && (row >= chroma_rows(
            width,
            height,
        ) || column >= half) ==> #[trigger] frame_samples(frame)[(plane, row, column)] == 128
    &&& forall|plane: int|
        0 <= plane < 3 ==> #[trigger] plane_extent(frame, plane) == made_extent(
            width,
            height,
            plane,
        )
    &&& forall|row: int, column: int|
        0 <= row < height && 0 <= column < width ==> #[trigger] frame_samples(frame)[(
            0,
            row,
            column,
        )] == data[row * width + column]
    &&& forall|row: int, column: int|
        0 <= row < chroma_rows(width, height) && 0 <= column < half ==> #[trigger] frame_samples(
            frame,
        )[(1, row, column)] == data[sizes.0 + row * half + column]
    &&& forall|row: int, column: int|
        0 <= row < chroma_rows(width, height) && 0 <= column < half ==> #[trigger] frame_samples(
            frame,
        )[(2, row, column)] == data[sizes.0 + sizes.1 + row * half + column]
}

/// `n` rounded up to a multiple of `unit`, where that can be told in `usize`.
fn align_up(n: usize, unit: usize) -> (up: Option<usize>)
    requires
        unit == 8 || unit == 64,
    ensures
        up matches Some(a) ==> a as int == aligned(n as int, unit as int) && a >= n && a - n < unit,
        up is None ==> n + unit - 1 > usize::MAX,
{
    if n > usize::MAX - (unit - 1) {
        None
    } else {
        Some((n + (unit - 1)) / unit * unit)
    }
}

/// Whether the layout of a frame of `width` by `height` can be computed.
fn layout_fits(width: usize, height: usize) -> (fits: bool)
    ensures
        fits == (width + 71 <= usize::MAX && height + 7 <= usize::MAX && aligned(
            aligned(width as int, 8),
            64,
        ) * aligned(height as int, 8) <= usize::MAX),
{
    if width > usize::MAX - 71 || height > usize::MAX - 7 {
        return false;
    }
    let row = match align_up(width, 8) {
        Some(eight) => match align_up(eight, 64) {
            Some(stride) => stride,
            None => {
                return false;
            },
        },
        None => {
            return false;
        },
    };
    let rows = match align_up(height, 8) {
        Some(rows) => rows,
        None => {
            return false;
        },
    };
    match row.checked_mul(rows) {
        Some(_) => true,
        None => false,
    }
}

/// Makes a frame of the planar 4:2:0 picture of `width` by `height` that
/// `yuv_data` holds.
pub fn yuv420_to_frame(yuv_data: &[u8], width: usize, height: usize) -> (result: Result<
    VideoFrame,
    MediaError,
>)
    ensures
        match frame_fit(yuv_data@.len() as int, width as int, height as int) {
            Err(error) => result matches Err(e) && e == error,
            Ok(()) => result matches Ok(frame) && holds_picture(
                frame,
                yuv_data@,
                width as int,
                height as int,
            ),
        },
{
    let len = yuv_data.len();
    let luma = match width.checked_mul(height) {
        Some(luma) => luma,
        None => {
            return Err(MediaError::InsufficientYuvData);
        },
    };
    let chroma = luma / 4;
    if len < luma || len - luma < chroma || len - luma - chroma < chroma {
        return Err(MediaError::InsufficientYuvData);
    }
    if width < 2 || !layout_fits(width, height) {
        return Err(MediaError::InvalidFrameDimensions);
    }
    let half = width / 2;
    let mut frame = new_frame_420(width, height);
    let ghost made = frame;
    proof {
        lemma_extent(width as int, height as int);
    }
    copy_into_plane(&mut frame, 0, slice_subrange(yuv_data, 0, luma), width);
    let ghost with_luma = frame;
    copy_into_plane(&mut frame, 1, slice_subrange(yuv_data, luma, luma + chroma), half);
    let ghost with_first = frame;
    copy_into_plane(&mut frame, 2, slice_subrange(yuv_data, luma + chroma, luma + 2 * chroma), half);
    proof {
        let w = width as int;
        let h = height as int;
        let data = yuv_data@;
        assert forall|row: int, column: int| 0 <= row < h && 0 <= column < w implies #[trigger] frame_samples(
            frame,
        )[(0, row, column)] == data[row * w + column] by {
            lemma_in_plane(w, h, row, column);
            assert(copy_reaches(made, 0, luma as int, w, row, column));
            assert(frame_samples(with_luma)[(0, row, column)] == data.subrange(0, luma as int)[row
                * w + column]);
            assert(frame_samples(with_first)[(0, row, column)] == frame_samples(with_luma)[(
                0,
                row,
                column,
            )]);
        }
        let rows = chroma_rows(w, h);
        assert((w * h) / w == h) by (nonlinear_arith)
            requires
                0 < w,
                0 <= h,
        ;
        assert forall|row: int, column: int|
            within_extent(frame, 0, row, column) && (row >= h || column >= w) implies #[trigger] frame_samples(
            frame,
        )[(0, row, column)] == 128 by {
            assert(!copy_reaches(made, 0, luma as int, w, row, column));
            assert(within_extent(made, 0, row, column));
            assert(frame_samples(with_luma)[(0, row, column)] == frame_samples(made)[(
                0,
                row,
                column,
            )]);
            assert(frame_samples(with_first)[(0, row, column)] == frame_samples(with_luma)[(
                0,
                row,
                column,
            )]);
        }
        assert forall|plane: int, row: int, column: int|
            1 <= plane <= 2 && within_extent(frame, plane, row, column) && (row >= rows || column
                >= half) implies #[trigger] frame_samples(frame)[(plane, row, column)] == 128 by {
            assert(within_extent(made, plane, row, column));
            assert(frame_samples(with_luma)[(plane, row, column)] == frame_samples(made)[(
                plane,
                row,
                column,
            )]);
            if plane == 1 {
                assert(!copy_reaches(with_luma, 1, chroma as int, half as int, row, column));
                assert(frame_samples(with_first)[(1, row, column)] == frame_samples(with_luma)[(
                    1,
                    row,
                    column,
                )]);
            } else {
                assert(!copy_reaches(with_first, 2, chroma as int, half as int, row, column));
                assert(frame_samples(with_first)[(2, row, column)] == frame_samples(with_luma)[(
                    2,
                    row,
                    column,
                )]);
            }
        }
        assert forall|row: int, column: int| 0 <= row < rows && 0 <= column < half implies #[trigger] frame_samples(
            frame,
        )[(1, row, column)] == data[luma + row * half + column] by {
            lemma_in_rows(chroma as int, half as int, row, column);
            assert(copy_reaches(with_luma, 1, chroma as int, half as int, row, column));
            assert(frame_samples(with_first)[(1, row, column)] == data.subrange(
                luma as int,
                luma + chroma,
            )[row * half + column]);
        }
        assert forall|row: int, column: int| 0 <= row < rows && 0 <= column < half implies #[trigger] frame_samples(
            frame,
        )[(2, row, column)] == data[luma + chroma + row * half + column] by {
            lemma_in_rows(chroma as int, half as int, row, column);
            assert(copy_reaches(with_first, 2, chroma as int, half as int, row, column));
            assert(frame_samples(frame)[(2, row, column)] == data.subrange(
                luma + chroma,
                luma + 2 * chroma,
            )[row * half + column]);
        }
    }
    Ok(frame)
}

/// The rows of the planes of a frame are as long as the picture's rows at
/// least, and the luma plane has rows enough.
proof fn lemma_extent(width: int, height: int)
    requires
        2 <= width,
        0 <= height,
    ensures
        made_extent(width, height, 0).0 >= width,
        made_extent(width, height, 0).1 >= height,
        made_extent(width, height, 1).0 >= width / 2,
        made_extent(width, height, 1).0 > 0,
        made_extent(width, height, 2) == made_extent(width, height, 1),
{
}

/// A sample of a picture lies within the bytes of its plane, and the plane
/// holds as many whole rows as the picture is high.
proof fn lemma_in_plane(width: int, height: int, row: int, column: int)
    requires
        0 < width,
        0 <= row < height,
        0 <= column < width,
    ensures
        0 <= row * width + column < width * height,
        row < (width * height) / width,
{
    assert(0 <= row * width + column < width * height && (width * height) / width == height)
        by (nonlinear_arith)
        requires
            0 < width,
            0 <= row < height,
            0 <= column < width,
    ;
}

/// A sample in one of the whole rows that `len` bytes fill lies within the
/// bytes.
proof fn lemma_in_rows(len: int, stride: int, row: int, column: int)
    requires
        0 < stride,
        0 <= len,
        0 <= row < len / stride,
        0 <= column < stride,
    ensures
        0 <= row * stride + column < len,
{
    assert(0 <= row * stride + column < len) by (nonlinear_arith)
        requires
            0 < stride,
            0 <= len,
            0 <= row < len / stride,
            0 <= column < stride,
    ;
}

} // verus!
