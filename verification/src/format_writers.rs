//! Writers for the three containers. Each appends to a byte buffer exactly the
//! bytes that the container's layout asks for.

use vstd::prelude::*;
use vstd::string::*;
use crate::bytes::{
    has_bytes_at, lemma_u16_at_piece, lemma_u16_le_round_trip, lemma_u32_at_piece,
    lemma_u32_le_round_trip, low_u16, push_all, push_u16_le, push_u32_le, push_u64_le, u16_at,
    u16_le, u32_at, u32_le, u64_le,
};
use crate::text::{decimal, decimal_int, push_decimal, push_decimal_i32};
use crate::types::FrameRate;

verus! {

/// The IVF header: the signature `DKIF`, a zero version, the header size 12,
/// the FourCC, the low 16 bits of width and of height, and the time base of
/// `rate` over 1.
pub open spec fn ivf_header_bytes(width: int, height: int, rate: int, fourcc: Seq<u8>) -> Seq<u8> {
    "DKIF".spec_bytes() + seq![0u8, 0u8, 0u8, 0u8] + u32_le(12) + fourcc + u16_le(width % 0x1_0000)
        + u16_le(height % 0x1_0000) + u32_le(rate) + u32_le(1)
}

/// An IVF frame record: the payload's size in 32 bits, the timestamp in 64,
/// then the payload.
pub open spec fn ivf_frame_bytes(payload: Seq<u8>, timestamp: int) -> Seq<u8> {
    u32_le(payload.len() as int % 0x1_0000_0000) + u64_le(timestamp) + payload
}

/// An EBML variable-length integer as this writer lays it out: one byte below
/// 0x7F, two below 0x3FFF with the mark 0x80, three below 0x1FFFFF with the
/// mark 0xC0, four below 0x0FFFFFFF with the mark 0xE0, and five from there on
/// with the mark 0xF0.
pub open spec fn vint_bytes(value: nat) -> Seq<u8> {
    if value < 0x7F {
        seq![value as u8]
    } else if value < 0x3FFF {
        seq![(0x80 + value / 0x100) as u8, (value % 256) as u8]
    } else if value < 0x1F_FFFF {
        seq![(0xC0 + value / 0x1_0000) as u8, (value / 0x100 % 256) as u8, (value % 256) as u8]
    } else if value < 0x0FFF_FFFF {
        seq![
            (0xE0 + value / 0x100_0000) as u8,
            (value / 0x1_0000 % 256) as u8,
            (value / 0x100 % 256) as u8,
            (value % 256) as u8,
        ]
    } else {
        seq![
            (0xF0 + value / 0x1_0000_0000 % 16) as u8,
            (value / 0x100_0000 % 256) as u8,
            (value / 0x1_0000 % 256) as u8,
            (value / 0x100 % 256) as u8,
            (value % 256) as u8,
        ]
    }
}

/// The EBML header: the magic number and a 19-byte body that ends in the
/// document type `webm`.
pub open spec fn ebml_header_bytes() -> Seq<u8> {
    seq![
        0x1Au8, 0x45u8, 0xDFu8, 0xA3u8,
        0x93u8,
        0x42u8, 0x86u8, 0x80u8,
        0x42u8, 0xF7u8, 0x80u8,
        0x42u8, 0xF2u8, 0x80u8,
        0x42u8, 0xF3u8, 0x80u8,
        0x42u8, 0x82u8, 0x84u8,
    ] + "webm".spec_bytes()
}

/// The opening of the Segment element, of unknown length.
pub open spec fn segment_start_bytes() -> Seq<u8> {
    seq![0x18u8, 0x53u8, 0x80u8, 0x67u8, 0x01u8, 0xFFu8, 0xFFu8, 0xFFu8, 0xFFu8, 0xFFu8, 0xFFu8, 0xFFu8]
}

/// The segment information: the timecode scale, the names of the muxing and
/// the writing application, and the duration element, whose eight bytes are
/// `frame_duration`, least significant first.
pub open spec fn segment_info_bytes(frame_duration: int) -> Seq<u8> {
    seq![0x15u8, 0x49u8, 0xA9u8, 0x66u8, 0x8Du8]
        + seq![0x2Au8, 0xD7u8, 0xB1u8, 0x83u8, 0x00u8, 0x00u8, 0x00u8]
        + seq![0x4Du8, 0x80u8, 0x14u8] + "rust-av-kit transcoding".spec_bytes()
        + seq![0x57u8, 0x41u8, 0x14u8] + "rust-av-kit transcoding".spec_bytes()
        + seq![0x44u8, 0x89u8, 0x88u8] + u64_le(frame_duration)
}

/// Track number 1, track UID 1 and track type 1, which is video.
pub open spec fn track_ids_bytes() -> Seq<u8> {
    seq![0xD7u8, 0x81u8, 0x01u8, 0x73u8, 0xC5u8, 0x81u8, 0x01u8, 0x83u8, 0x81u8, 0x01u8]
}

/// The video settings: pixel width and height, then display width and height,
/// each the low 16 bits of the dimension, least significant byte first.
pub open spec fn video_settings_bytes(width: int, height: int) -> Seq<u8> {
    seq![0xE0u8, 0x7Eu8]
        + seq![0xB0u8, 0x82u8] + u16_le(width % 0x1_0000)
        + seq![0xBAu8, 0x82u8] + u16_le(height % 0x1_0000)
        + seq![0x54u8, 0xB0u8, 0x82u8] + u16_le(width % 0x1_0000)
        + seq![0x54u8, 0xBAu8, 0x82u8] + u16_le(height % 0x1_0000)
}

/// The CodecPrivate element around `private`, or nothing where there is none.
pub open spec fn codec_private_bytes(private: Option<Seq<u8>>) -> Seq<u8> {
    match private {
        Some(data) => seq![0x63u8, 0xA2u8] + vint_bytes(data.len()) + data,
        None => Seq::empty(),
    }
}

/// The size that the track entry declares: 28, and the private data's length
/// and 4 more where there is private data.
pub open spec fn track_entry_size(private: Option<Seq<u8>>) -> nat {
    match private {
        Some(data) => 28 + data.len() + 4,
        None => 28,
    }
}

/// The Tracks element with its one video track: the declared sizes, the track
/// ids, the codec id behind the low 8 bits of its length, the private data and
/// the video settings.
pub open spec fn tracks_bytes(
    width: int,
    height: int,
    codec_id: Seq<u8>,
    private: Option<Seq<u8>>,
) -> Seq<u8> {
    seq![0x16u8, 0x54u8, 0xAEu8, 0x6Bu8] + vint_bytes(2 + track_entry_size(private))
        + seq![0xAEu8] + vint_bytes(track_entry_size(private))
        + track_ids_bytes()
        + seq![0x86u8, (codec_id.len() % 256) as u8] + codec_id
        + codec_private_bytes(private)
        + video_settings_bytes(width, height)
}

/// The WebM header: EBML header, Segment start, segment information and the
/// Tracks element for the codec `codec_id`.
pub open spec fn webm_header_bytes(
    width: int,
    height: int,
    frame_duration: int,
    codec_id: Seq<u8>,
    private: Option<Seq<u8>>,
) -> Seq<u8> {
    ebml_header_bytes() + segment_start_bytes() + segment_info_bytes(frame_duration)
        + tracks_bytes(width, height, codec_id, private)
}

/// The Matroska header for raw video: as the WebM header, with the fixed
/// sizes 0x9E and 0x8C, the codec id `V_RAWVIDEO` behind the size 0x8B, and no
/// private data.
pub open spec fn matroska_header_bytes(width: int, height: int, frame_duration: int) -> Seq<u8> {
    ebml_header_bytes() + segment_start_bytes() + segment_info_bytes(frame_duration)
        + seq![0x16u8, 0x54u8, 0xAEu8, 0x6Bu8, 0x9Eu8, 0xAEu8, 0x8Cu8]
        + track_ids_bytes()
        + seq![0x86u8, 0x8Bu8] + "V_RAWVIDEO".spec_bytes()
        + video_settings_bytes(width, height)
}

/// The size field of a SimpleBlock of `size` bytes: one byte below 0x7F, else
/// two, the first with its high bit set over bits 8 to 14 of the size, the
/// second the low 8 bits.
pub open spec fn block_size_bytes(size: nat) -> Seq<u8> {
    if size < 0x7F {
        seq![size as u8]
    } else {
        seq![(0x80 + size / 0x100 % 128) as u8, (size % 256) as u8]
    }
}

/// A SimpleBlock: the id 0xA3, the size of payload and 4, track 1, the low 16
/// bits of the timestamp, the keyframe flag, and the payload.
pub open spec fn simpleblock_bytes(payload: Seq<u8>, timestamp: int) -> Seq<u8> {
    seq![0xA3u8] + block_size_bytes(payload.len() + 4) + seq![0x81u8] + u16_le(
        timestamp % 0x1_0000,
    ) + seq![0x80u8] + payload
}

/// The opening of a Cluster of unknown length, with its timecode: the low 32
/// bits of `timestamp`.
pub open spec fn cluster_start_bytes(timestamp: int) -> Seq<u8> {
    seq![0x1Fu8, 0x43u8, 0xB6u8, 0x75u8, 0x01u8, 0xFFu8, 0xFFu8, 0xFFu8, 0xFFu8, 0xFFu8, 0xFFu8, 0xFFu8]
        + seq![0xE7u8, 0x83u8] + u32_le(timestamp % 0x1_0000_0000)
}

/// The Matroska trailer: a Void element that pads.
pub open spec fn matroska_trailer_bytes() -> Seq<u8> {
    seq![0xECu8, 0x01u8, 0x00u8]
}

/// The Y4M header line for `rate` whole frames per second.
pub open spec fn y4m_header_bytes(width: int, height: int, rate: nat) -> Seq<u8> {
    "YUV4MPEG2 W".spec_bytes() + decimal_int(width) + " H".spec_bytes() + decimal_int(height)
        + " F".spec_bytes() + decimal(rate) + ":1 Ip A1:1 C420mpeg2\n".spec_bytes()
}

/// A Y4M frame record: the marker line, then the payload.
pub open spec fn y4m_frame_bytes(payload: Seq<u8>) -> Seq<u8> {
    "FRAME\n".spec_bytes() + payload
}

/// Appends the IVF header: 28 bytes. A reader that skips 32 bytes, as the one
/// of this library does, finds the frames of a stream that opens with this
/// header only where 4 more bytes stand in front of them.
pub fn write_ivf_header(
    out: &mut Vec<u8>,
    width: i32,
    height: i32,
    frame_rate: FrameRate,
    fourcc: [u8; 4],
)
    ensures
        final(out)@ == old(out)@ + ivf_header_bytes(
            width as int,
            height as int,
            frame_rate.whole_spec(),
            fourcc@,
        ),
{
    push_all(out, "DKIF".as_bytes());
    out.push(0);
    out.push(0);
    out.push(0);
    out.push(0);
    push_u32_le(out, 12);
    push_all(out, fourcc.as_slice());
    push_u16_le(out, low_u16(width));
    push_u16_le(out, low_u16(height));
    push_u32_le(out, frame_rate.whole());
    push_u32_le(out, 1);
    assert(out@ =~= old(out)@ + ivf_header_bytes(
        width as int,
        height as int,
        frame_rate.whole_spec(),
        fourcc@,
    ));
}

/// Appends one IVF frame record.
pub fn write_ivf_frame(out: &mut Vec<u8>, frame_data: &[u8], timestamp: u64)
    ensures
        final(out)@ == old(out)@ + ivf_frame_bytes(frame_data@, timestamp as int),
{
    let size: u32 = (frame_data.len() as u64 % 0x1_0000_0000) as u32;
    push_u32_le(out, size);
    push_u64_le(out, timestamp);
    push_all(out, frame_data);
    assert(out@ =~= old(out)@ + ivf_frame_bytes(frame_data@, timestamp as int));
}

/// Appends `value` as a variable-length integer.
fn write_vint_wide(out: &mut Vec<u8>, value: u128)
    ensures
        final(out)@ == old(out)@ + vint_bytes(value as nat),
{
    if value < 0x7F {
        out.push(value as u8);
    } else if value < 0x3FFF {
        out.push((0x80 + value / 0x100) as u8);
        out.push((value % 256) as u8);
    } else if value < 0x1F_FFFF {
        out.push((0xC0 + value / 0x1_0000) as u8);
        out.push((value / 0x100 % 256) as u8);
        out.push((value % 256) as u8);
    } else if value < 0x0FFF_FFFF {
        out.push((0xE0 + value / 0x100_0000) as u8);
        out.push((value / 0x1_0000 % 256) as u8);
        out.push((value / 0x100 % 256) as u8);
        out.push((value % 256) as u8);
    } else {
        out.push((0xF0 + value / 0x1_0000_0000 % 16) as u8);
        out.push((value / 0x100_0000 % 256) as u8);
        out.push((value / 0x1_0000 % 256) as u8);
        out.push((value / 0x100 % 256) as u8);
        out.push((value % 256) as u8);
    }
    assert(out@ =~= old(out)@ + vint_bytes(value as nat));
}

/// Appends `value` as a variable-length integer.
pub fn write_vint(out: &mut Vec<u8>, value: u64)
    ensures
        final(out)@ == old(out)@ + vint_bytes(value as nat),
{
    write_vint_wide(out, value as u128);
}

/// Appends the EBML header.
fn write_ebml_header(out: &mut Vec<u8>)
    ensures
        final(out)@ == old(out)@ + ebml_header_bytes(),
{
    push_all(out, [0x1A, 0x45, 0xDF, 0xA3].as_slice());
    out.push(0x93);
    push_all(out, [0x42, 0x86, 0x80].as_slice());
    push_all(out, [0x42, 0xF7, 0x80].as_slice());
    push_all(out, [0x42, 0xF2, 0x80].as_slice());
    push_all(out, [0x42, 0xF3, 0x80].as_slice());
    push_all(out, [0x42, 0x82, 0x84].as_slice());
    push_all(out, "webm".as_bytes());
    assert(out@ =~= old(out)@ + ebml_header_bytes());
}

/// Appends the opening of the Segment element.
fn write_segment_start(out: &mut Vec<u8>)
    ensures
        final(out)@ == old(out)@ + segment_start_bytes(),
{
    push_all(out, [0x18, 0x53, 0x80, 0x67].as_slice());
    push_all(out, [0x01, 0xFF, 0xFF, 0xFF, 0xFF, 0xFF, 0xFF, 0xFF].as_slice());
    assert(out@ =~= old(out)@ + segment_start_bytes());
}

/// Appends the segment information.
fn write_segment_info(out: &mut Vec<u8>, frame_duration: u64)
    ensures
        final(out)@ == old(out)@ + segment_info_bytes(frame_duration as int),
{
    push_all(out, [0x15, 0x49, 0xA9, 0x66, 0x8D].as_slice());
    push_all(out, [0x2A, 0xD7, 0xB1, 0x83, 0x00, 0x00, 0x00].as_slice());
    push_all(out, [0x4D, 0x80, 0x14].as_slice());
    push_all(out, "rust-av-kit transcoding".as_bytes());
    push_all(out, [0x57, 0x41, 0x14].as_slice());
    push_all(out, "rust-av-kit transcoding".as_bytes());
    push_all(out, [0x44, 0x89, 0x88].as_slice());
    push_u64_le(out, frame_duration);
    assert(out@ =~= old(out)@ + segment_info_bytes(frame_duration as int));
}

/// Appends the track ids.
fn write_track_ids(out: &mut Vec<u8>)
    ensures
        final(out)@ == old(out)@ + track_ids_bytes(),
{
    push_all(out, [0xD7, 0x81, 0x01].as_slice());
    push_all(out, [0x73, 0xC5, 0x81, 0x01].as_slice());
    push_all(out, [0x83, 0x81, 0x01].as_slice());
    assert(out@ =~= old(out)@ + track_ids_bytes());
}

/// Appends the video settings.
fn write_video_settings(out: &mut Vec<u8>, width: i32, height: i32)
    ensures
        final(out)@ == old(out)@ + video_settings_bytes(width as int, height as int),
{
    let w = low_u16(width);
    let h = low_u16(height);
    push_all(out, [0xE0, 0x7E].as_slice());
    push_all(out, [0xB0, 0x82].as_slice());
    push_u16_le(out, w);
    push_all(out, [0xBA, 0x82].as_slice());
    push_u16_le(out, h);
    push_all(out, [0x54, 0xB0, 0x82].as_slice());
    push_u16_le(out, w);
    push_all(out, [0x54, 0xBA, 0x82].as_slice());
    push_u16_le(out, h);
    assert(out@ =~= old(out)@ + video_settings_bytes(width as int, height as int));
}

/// Appends the Matroska header for raw video. `frame_duration` is the bit
/// pattern of the duration element's value.
pub fn write_matroska_header(out: &mut Vec<u8>, width: i32, height: i32, frame_duration: u64)
    ensures
        final(out)@ == old(out)@ + matroska_header_bytes(
            width as int,
            height as int,
            frame_duration as int,
        ),
{
    write_ebml_header(out);
    write_segment_start(out);
    write_segment_info(out, frame_duration);
    push_all(out, [0x16, 0x54, 0xAE, 0x6B, 0x9E, 0xAE, 0x8C].as_slice());
    write_track_ids(out);
    push_all(out, [0x86, 0x8B].as_slice());
    push_all(out, "V_RAWVIDEO".as_bytes());
    write_video_settings(out, width, height);
    assert(out@ =~= old(out)@ + matroska_header_bytes(
        width as int,
        height as int,
        frame_duration as int,
    ));
}

/// The view of the private data, where there is any.
pub open spec fn private_view(codec_private: Option<&[u8]>) -> Option<Seq<u8>> {
    match codec_private {
        Some(data) => Some(data@),
        None => None,
    }
}

/// Appends the CodecPrivate element, where there is private data.
fn write_codec_private(out: &mut Vec<u8>, codec_private: Option<&[u8]>)
    ensures
        final(out)@ == old(out)@ + codec_private_bytes(private_view(codec_private)),
{
    match codec_private {
        Some(data) => {
            push_all(out, [0x63, 0xA2].as_slice());
            write_vint_wide(out, data.len() as u128);
            push_all(out, data);
            assert(out@ =~= old(out)@ + codec_private_bytes(private_view(codec_private)));
        },
        None => {
            assert(out@ =~= old(out)@ + codec_private_bytes(private_view(codec_private)));
        },
    }
}

/// Appends the sizes that open the Tracks element and its one track entry.
fn write_track_sizes(out: &mut Vec<u8>, codec_private: Option<&[u8]>)
    ensures
        final(out)@ == old(out)@ + seq![0x16u8, 0x54u8, 0xAEu8, 0x6Bu8] + vint_bytes(
            2 + track_entry_size(private_view(codec_private)),
        ) + seq![0xAEu8] + vint_bytes(track_entry_size(private_view(codec_private))),
{
    let entry_size: u128 = match codec_private {
        Some(data) => 28 + data.len() as u128 + 4,
        None => 28,
    };
    push_all(out, [0x16, 0x54, 0xAE, 0x6B].as_slice());
    write_vint_wide(out, 2 + entry_size);
    out.push(0xAE);
    write_vint_wide(out, entry_size);
    assert(out@ =~= old(out)@ + seq![0x16u8, 0x54u8, 0xAEu8, 0x6Bu8] + vint_bytes(
        2 + track_entry_size(private_view(codec_private)),
    ) + seq![0xAEu8] + vint_bytes(track_entry_size(private_view(codec_private))));
}

/// Appends the codec id behind the low 8 bits of its length.
fn write_codec_id(out: &mut Vec<u8>, codec_id: &str)
    ensures
        final(out)@ == old(out)@ + seq![0x86u8, (codec_id.spec_bytes().len() % 256) as u8]
            + codec_id.spec_bytes(),
{
    let id = codec_id.as_bytes();
    out.push(0x86);
    out.push((id.len() % 256) as u8);
    push_all(out, id);
    assert(out@ =~= old(out)@ + seq![0x86u8, (codec_id.spec_bytes().len() % 256) as u8]
        + codec_id.spec_bytes());
}

/// Appends the Tracks element.
fn write_tracks(
    out: &mut Vec<u8>,
    width: i32,
    height: i32,
    codec_id: &str,
    codec_private: Option<&[u8]>,
)
    ensures
        final(out)@ == old(out)@ + tracks_bytes(
            width as int,
            height as int,
            codec_id.spec_bytes(),
            private_view(codec_private),
        ),
{
    write_track_sizes(out, codec_private);
    write_track_ids(out);
    write_codec_id(out, codec_id);
    write_codec_private(out, codec_private);
    write_video_settings(out, width, height);
    assert(out@ =~= old(out)@ + tracks_bytes(
        width as int,
        height as int,
        codec_id.spec_bytes(),
        private_view(codec_private),
    ));
}

/// Appends the WebM header for the codec `codec_id`, with its private data.
/// `frame_duration` is the bit pattern of the duration element's value.
pub fn write_webm_header(
    out: &mut Vec<u8>,
    width: i32,
    height: i32,
    frame_duration: u64,
    codec_id: &str,
    codec_private: Option<&[u8]>,
)
    ensures
        final(out)@ == old(out)@ + webm_header_bytes(
            width as int,
            height as int,
            frame_duration as int,
            codec_id.spec_bytes(),
            private_view(codec_private),
        ),
{
    write_ebml_header(out);
    write_segment_start(out);
    write_segment_info(out, frame_duration);
    write_tracks(out, width, height, codec_id, codec_private);
    assert(out@ =~= old(out)@ + webm_header_bytes(
        width as int,
        height as int,
        frame_duration as int,
        codec_id.spec_bytes(),
        private_view(codec_private),
    ));
}

/// Appends one SimpleBlock. The track number is not written: every block
/// belongs to track 1.
pub fn write_matroska_simpleblock(
    out: &mut Vec<u8>,
    frame_data: &[u8],
    timestamp: u64,
    _track_number: u32,
)
    ensures
        final(out)@ == old(out)@ + simpleblock_bytes(frame_data@, timestamp as int),
{
    out.push(0xA3);
    let size: u128 = frame_data.len() as u128 + 4;
    if size < 0x7F {
        out.push(size as u8);
    } else {
        out.push((0x80 + size / 0x100 % 128) as u8);
        out.push((size % 256) as u8);
    }
    out.push(0x81);
    push_u16_le(out, (timestamp % 0x1_0000) as u16);
    out.push(0x80);
    push_all(out, frame_data);
    assert(out@ =~= old(out)@ + simpleblock_bytes(frame_data@, timestamp as int));
}

/// Appends the opening of a Cluster.
pub fn write_matroska_cluster_start(out: &mut Vec<u8>, timestamp: u64)
    ensures
        final(out)@ == old(out)@ + cluster_start_bytes(timestamp as int),
{
    push_all(out, [0x1F, 0x43, 0xB6, 0x75].as_slice());
    push_all(out, [0x01, 0xFF, 0xFF, 0xFF, 0xFF, 0xFF, 0xFF, 0xFF].as_slice());
    push_all(out, [0xE7, 0x83].as_slice());
    push_u32_le(out, (timestamp % 0x1_0000_0000) as u32);
    assert(out@ =~= old(out)@ + cluster_start_bytes(timestamp as int));
}

/// Appends the Matroska trailer.
pub fn write_matroska_trailer(out: &mut Vec<u8>)
    ensures
        final(out)@ == old(out)@ + matroska_trailer_bytes(),
{
    push_all(out, [0xEC, 0x01, 0x00].as_slice());
    assert(out@ =~= old(out)@ + matroska_trailer_bytes());
}

/// Appends the Y4M header line. The rate is written in whole frames over 1.
pub fn write_y4m_header(out: &mut Vec<u8>, width: i32, height: i32, frame_rate: FrameRate)
    ensures
        final(out)@ == old(out)@ + y4m_header_bytes(
            width as int,
            height as int,
            frame_rate.whole_spec() as nat,
        ),
{
    push_all(out, "YUV4MPEG2 W".as_bytes());
    push_decimal_i32(out, width);
    push_all(out, " H".as_bytes());
    push_decimal_i32(out, height);
    push_all(out, " F".as_bytes());
    push_decimal(out, frame_rate.whole() as u64);
    push_all(out, ":1 Ip A1:1 C420mpeg2\n".as_bytes());
    assert(out@ =~= old(out)@ + y4m_header_bytes(
        width as int,
        height as int,
        frame_rate.whole_spec() as nat,
    ));
}

/// Appends one Y4M frame record. Frames carry no number: their order is their
/// timing.
pub fn write_y4m_frame(out: &mut Vec<u8>, frame_data: &[u8], _frame_number: u32)
    ensures
        final(out)@ == old(out)@ + y4m_frame_bytes(frame_data@),
{
    push_all(out, "FRAME\n".as_bytes());
    push_all(out, frame_data);
    assert(out@ =~= old(out)@ + y4m_frame_bytes(frame_data@));
}

/// Where the fields of the IVF header stand: the header is 28 bytes long, the
/// signature opens it, the FourCC stands at bytes 12 to 16, the low 16 bits of
/// the width at 16 and of the height at 18, and the rate at 20.
pub proof fn lemma_ivf_header_fields(width: int, height: int, rate: int, fourcc: Seq<u8>)
    requires
        fourcc.len() == 4,
        0 <= rate < 0x1_0000_0000,
    ensures
        ivf_header_bytes(width, height, rate, fourcc).len() == 28,
        has_bytes_at(ivf_header_bytes(width, height, rate, fourcc), 0, "DKIF".spec_bytes()),
        ivf_header_bytes(width, height, rate, fourcc).subrange(12, 16) == fourcc,
        u16_at(ivf_header_bytes(width, height, rate, fourcc), 16) == width % 0x1_0000,
        u16_at(ivf_header_bytes(width, height, rate, fourcc), 18) == height % 0x1_0000,
        u32_at(ivf_header_bytes(width, height, rate, fourcc), 20) == rate,
{
    reveal_strlit("DKIF");
    vstd::utf8::is_ascii_chars_encode_utf8("DKIF"@);
    let magic = "DKIF".spec_bytes();
    assert(magic.len() == 4);
    let w = u16_le(width % 0x1_0000);
    let h = u16_le(height % 0x1_0000);
    let r = u32_le(rate);
    let one = u32_le(1);
    lemma_u32_le_round_trip(12);
    lemma_u16_le_round_trip(width % 0x1_0000);
    lemma_u16_le_round_trip(height % 0x1_0000);
    lemma_u32_le_round_trip(rate);
    lemma_u32_le_round_trip(1);
    let header = ivf_header_bytes(width, height, rate, fourcc);
    assert(header.len() == 28);
    assert(header.subrange(0, 4) =~= magic);
    assert(header.subrange(12, 16) =~= fourcc);
    assert(header.subrange(16, 18) =~= w);
    assert(header.subrange(18, 20) =~= h);
    assert(header.subrange(20, 24) =~= r);
    lemma_u16_at_piece(header, 16, w);
    lemma_u16_at_piece(header, 18, h);
    lemma_u32_at_piece(header, 20, r);
}

/// The length of a variable-length integer: 1 byte below 0x7F, 2 below 0x3FFF,
/// 3 below 0x1FFFFF, 4 below 0x0FFFFFFF, and 5 from there on.
pub proof fn lemma_vint_len(value: nat)
    ensures
        vint_bytes(value).len() == if value < 0x7F {
            1nat
        } else if value < 0x3FFF {
            2nat
        } else if value < 0x1F_FFFF {
            3nat
        } else if value < 0x0FFF_FFFF {
            4nat
        } else {
            5nat
        },
{
}

} // verus!
