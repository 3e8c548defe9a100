//! Readers for the three containers: the frames of an IVF, a Matroska and a
//! Y4M stream, and the fields of a Y4M header line.
//!
//! The readers are lenient: a frame that the stream cuts short ends the
//! reading, and what was read before it stands.

use vstd::prelude::*;
use vstd::slice::{slice_subrange, slice_to_vec};
use vstd::string::*;
use crate::bytes::{
    has_bytes_at, lemma_u32_at_piece, lemma_u32_le_round_trip, lemma_u64_at_piece,
    lemma_u64_le_round_trip, read_u32_le, read_u64_le, starts_with_at, u32_at, u32_le, u64_at,
    u64_le,
};
use crate::format_writers::{ivf_frame_bytes, y4m_header_bytes};
use crate::error::MediaError;
use crate::text::{
    decimal, decimal_int, digits_value, find_byte, find_token_end, first_index, is_digit, is_solid,
    is_word, joined, lemma_decimal_int_is_word, lemma_decimal_is_word, lemma_first_index_skips,
    lemma_parse_decimal_i32, lemma_parse_decimal_u32, lemma_token_start_stops,
    lemma_words_are_tokens, parse_i32,
    parse_i32_spec, parse_u32, parse_u32_spec, skip_white_space, token_end, token_start, tokens,
    tokens_from, white_space_len,
};
use crate::types::{frame_views, payload_views, MediaFrame, FrameRate, FrameView};

verus! {

/// The length of the IVF header that the reader skips.
pub const IVF_HEADER_LEN: usize = 32;

/// The length of the header of an IVF frame record.
pub const IVF_FRAME_HEADER_LEN: usize = 12;

/// The frames of an IVF stream from `cursor` on: while 12 bytes remain, a size
/// and a timestamp are read, and the frame is the `size` bytes behind them; a
/// frame that the stream cuts short ends the list.
pub open spec fn ivf_frames_from(data: Seq<u8>, cursor: int) -> Seq<FrameView>
    decreases data.len() - cursor,
{
    if cursor < 0 || cursor + 12 > data.len() {
        Seq::empty()
    } else {
        let size = u32_at(data, cursor);
        let start = cursor + 12;
        if size < 0 || start + size > data.len() {
            Seq::empty()
        } else {
            seq![
                FrameView {
                    data: data.subrange(start, start + size),
                    timestamp: u64_at(data, cursor + 4) as u64,
                },
            ] + ivf_frames_from(data, start + size)
        }
    }
}

/// The frames of an IVF stream: those behind its 32-byte header.
pub open spec fn ivf_frames(data: Seq<u8>) -> Seq<FrameView> {
    ivf_frames_from(data, 32)
}

/// The first `limit` items of `all`, or all of them where there are fewer.
pub open spec fn at_most<T>(all: Seq<T>, limit: int) -> Seq<T> {
    if limit < all.len() {
        all.subrange(0, limit)
    } else {
        all
    }
}

/// The magic number that opens an EBML document.
pub open spec fn ebml_magic() -> Seq<u8> {
    seq![0x1Au8, 0x45u8, 0xDFu8, 0xA3u8]
}

/// Where the scan for blocks starts: behind the EBML magic number, where the
/// stream opens with it and is longer than it.
pub open spec fn matroska_scan_start(data: Seq<u8>) -> int {
    if data.len() > 4 && has_bytes_at(data, 0, ebml_magic()) {
        4
    } else {
        0
    }
}

/// The size that the byte `first` of a block's size field declares: itself
/// below 0x7F, else its low seven bits as the high byte of a 16-bit number.
pub open spec fn block_declared_size(first: u8) -> int {
    if first < 0x7F {
        first as int
    } else {
        (first % 128) * 256
    }
}

/// The length of a block's size field, by its first byte.
pub open spec fn block_size_field_len(first: u8) -> int {
    if first < 0x7F {
        1
    } else {
        2
    }
}

/// The length of the payload of a block that declares `size` bytes: the size
/// less the 4 bytes of track number, timestamp and flags.
pub open spec fn block_payload_len(size: int) -> int {
    if size >= 4 {
        size - 4
    } else {
        0
    }
}

/// The payloads that a scan from `offset` finds: at each byte 0xA3 a size
/// field is read, 4 bytes are skipped and the payload is taken; any other byte
/// is passed over. A block that the stream cuts short ends the scan.
pub open spec fn matroska_frames_from(data: Seq<u8>, offset: int) -> Seq<Seq<u8>>
    decreases data.len() - offset,
{
    if offset < 0 || offset >= data.len() {
        Seq::empty()
    } else if data[offset] != 0xA3 {
        matroska_frames_from(data, offset + 1)
    } else if offset + 1 >= data.len() {
        Seq::empty()
    } else {
        let first = data[offset + 1];
        let start = offset + 1 + block_size_field_len(first) + 4;
        let len = block_payload_len(block_declared_size(first));
        if start + len > data.len() {
            Seq::empty()
        } else {
            seq![data.subrange(start, start + len)] + matroska_frames_from(data, start + len)
        }
    }
}

/// The payloads of the blocks of a Matroska stream.
pub open spec fn matroska_frames(data: Seq<u8>) -> Seq<Seq<u8>> {
    matroska_frames_from(data, matroska_scan_start(data))
}

/// The bytes of a planar 4:2:0 frame of `width` by `height`: the luma plane
/// and two chroma planes of a quarter of it each. `None` where a dimension is
/// negative.
pub open spec fn yuv420_frame_size(width: int, height: int) -> Option<int> {
    if width < 0 || height < 0 {
        None
    } else {
        Some(width * height + 2 * ((width * height) / 4))
    }
}

/// Where the payload behind a frame marker at `offset` starts: behind the line
/// end that follows the marker, or at the end of the stream where none does.
pub open spec fn y4m_payload_start(data: Seq<u8>, offset: int) -> int {
    let line_end = first_index(data, offset + "FRAME".spec_bytes().len(), 0x0Au8);
    if line_end < data.len() {
        line_end + 1
    } else {
        line_end
    }
}

/// The payloads that a scan from `offset` finds: at each marker `FRAME` the
/// rest of the line is skipped and `frame_size` bytes are taken; any other
/// byte is passed over. A frame that the stream cuts short ends the scan.
pub open spec fn y4m_frames_from(data: Seq<u8>, offset: int, frame_size: int) -> Seq<Seq<u8>>
    decreases data.len() - offset,
{
    if offset < 0 || offset >= data.len() || frame_size < 0 {
        Seq::empty()
    } else if !has_bytes_at(data, offset, "FRAME".spec_bytes()) {
        y4m_frames_from(data, offset + 1, frame_size)
    } else {
        let start = y4m_payload_start(data, offset);
        if start <= offset || start + frame_size > data.len() {
            Seq::empty()
        } else {
            seq![data.subrange(start, start + frame_size)] + y4m_frames_from(
                data,
                start + frame_size,
                frame_size,
            )
        }
    }
}

/// Where the header line of a Y4M stream ends: at its first line end, if it
/// has one.
pub open spec fn y4m_header_end(data: Seq<u8>) -> Option<int> {
    let at = first_index(data, 0, 0x0Au8);
    if at < data.len() {
        Some(at)
    } else {
        None
    }
}

/// What a token of a Y4M header line says.
#[derive(Debug, Clone, Copy, PartialEq, Eq, Structural)]
pub enum Y4mToken {
    /// `W` and the number behind it, where it is one.
    Width(Option<i32>),
    /// `H` and the number behind it, where it is one.
    Height(Option<i32>),
    /// `F` and the two numbers on either side of its one colon, where they are
    /// whole numbers. A side with a fraction, such as `29.97`, is no number.
    Rate(Option<u32>, Option<u32>),
    /// Anything else.
    Other,
}

/// Whether `s` holds exactly one colon.
pub open spec fn has_one_colon(s: Seq<u8>) -> bool {
    let colon = first_index(s, 0, 0x3Au8);
    colon < s.len() && first_index(s, colon + 1, 0x3Au8) == s.len()
}

/// What the token `token` says.
pub open spec fn classify_token(token: Seq<u8>) -> Y4mToken {
    if token.len() == 0 {
        Y4mToken::Other
    } else {
        let rest = token.subrange(1, token.len() as int);
        if token[0] == 0x57 {
            Y4mToken::Width(parse_i32_spec(rest))
        } else if token[0] == 0x48 {
            Y4mToken::Height(parse_i32_spec(rest))
        } else if token[0] == 0x46 && has_one_colon(rest) {
            let colon = first_index(rest, 0, 0x3Au8);
            Y4mToken::Rate(
                parse_u32_spec(rest.subrange(0, colon)),
                parse_u32_spec(rest.subrange(colon + 1, rest.len() as int)),
            )
        } else {
            Y4mToken::Other
        }
    }
}

/// The header fields after one more token, read strictly: a width, a height or
/// a rate that is no number is an error.
pub open spec fn strict_step(fields: (i32, i32, FrameRate), token: Y4mToken) -> Result<
    (i32, i32, FrameRate),
    MediaError,
> {
    match token {
        Y4mToken::Width(Some(width)) => Ok((width, fields.1, fields.2)),
        Y4mToken::Width(None) => Err(MediaError::InvalidWidth),
        Y4mToken::Height(Some(height)) => Ok((fields.0, height, fields.2)),
        Y4mToken::Height(None) => Err(MediaError::InvalidHeight),
        Y4mToken::Rate(Some(num), Some(den)) => Ok((fields.0, fields.1, FrameRate { num, den })),
        Y4mToken::Rate(None, _) => Err(MediaError::InvalidFrameRateNumerator),
        Y4mToken::Rate(Some(_), None) => Err(MediaError::InvalidFrameRateDenominator),
        Y4mToken::Other => Ok(fields),
    }
}

/// The header fields after the tokens `tokens`, read strictly from `fields`
/// on; the first error ends the reading.
pub open spec fn strict_fields(tokens: Seq<Seq<u8>>, fields: (i32, i32, FrameRate)) -> Result<
    (i32, i32, FrameRate),
    MediaError,
>
    decreases tokens.len(),
{
    if tokens.len() == 0 {
        Ok(fields)
    } else {
        match strict_step(fields, classify_token(tokens[0])) {
            Ok(next) => strict_fields(tokens.drop_first(), next),
            Err(error) => Err(error),
        }
    }
}

/// The fields that a header line starts from: 640 by 480 at 30 frames per
/// second.
pub open spec fn default_fields() -> (i32, i32, FrameRate) {
    (640i32, 480i32, FrameRate { num: 30, den: 1 })
}

/// The width, the height and the frame rate that a Y4M header line gives. The
/// numbers of the line are whole numbers; a field that holds anything else is
/// the error of that field.
pub open spec fn y4m_header_spec(header: Seq<u8>) -> Result<(i32, i32, FrameRate), MediaError> {
    strict_fields(tokens(header), default_fields())
}

/// The header fields after one more token, read leniently: a width or a height
/// that is no number is unknown, and a rate that is no number changes nothing.
pub open spec fn lenient_step(
    fields: (Option<i32>, Option<i32>, Option<FrameRate>),
    token: Y4mToken,
) -> (Option<i32>, Option<i32>, Option<FrameRate>) {
    match token {
        Y4mToken::Width(width) => (width, fields.1, fields.2),
        Y4mToken::Height(height) => (fields.0, height, fields.2),
        Y4mToken::Rate(Some(num), Some(den)) => (fields.0, fields.1, Some(FrameRate { num, den })),
        _ => fields,
    }
}

/// The header fields after the tokens `tokens`, read leniently from `fields`
/// on.
pub open spec fn lenient_fields(
    tokens: Seq<Seq<u8>>,
    fields: (Option<i32>, Option<i32>, Option<FrameRate>),
) -> (Option<i32>, Option<i32>, Option<FrameRate>)
    decreases tokens.len(),
{
    if tokens.len() == 0 {
        fields
    } else {
        lenient_fields(tokens.drop_first(), lenient_step(fields, classify_token(tokens[0])))
    }
}

/// The width, the height and the frame rate that a Y4M header line lets one
/// detect; each is unknown where the line does not give it.
pub open spec fn y4m_detected_fields(header: Seq<u8>) -> (
    Option<i32>,
    Option<i32>,
    Option<FrameRate>,
) {
    lenient_fields(tokens(header), (None, None, None))
}

/// An IVF stream holds no more frames than bytes.
pub proof fn lemma_ivf_frames_len(data: Seq<u8>, cursor: int)
    requires
        0 <= cursor,
    ensures
        ivf_frames_from(data, cursor).len() <= data.len(),
        ivf_frames_from(data, cursor).len() + cursor <= data.len() || ivf_frames_from(
            data,
            cursor,
        ).len() == 0,
    decreases data.len() - cursor,
{
    if cursor + 12 <= data.len() {
        let size = u32_at(data, cursor);
        let start = cursor + 12;
        if 0 <= size && start + size <= data.len() {
            lemma_ivf_frames_len(data, start + size);
        }
    }
}

/// A scan for Y4M frames finds no more frames than bytes.
pub proof fn lemma_y4m_frames_len(data: Seq<u8>, offset: int, frame_size: int)
    requires
        0 <= offset,
    ensures
        y4m_frames_from(data, offset, frame_size).len() + offset <= data.len()
            || y4m_frames_from(data, offset, frame_size).len() == 0,
    decreases data.len() - offset,
{
    if offset < data.len() && frame_size >= 0 {
        if !has_bytes_at(data, offset, "FRAME".spec_bytes()) {
            lemma_y4m_frames_len(data, offset + 1, frame_size);
        } else {
            let start = y4m_payload_start(data, offset);
            if start > offset && start + frame_size <= data.len() {
                lemma_y4m_frames_len(data, start + frame_size, frame_size);
            }
        }
    }
}

/// Reads the frames of an IVF stream, `limit` of them at most.
pub fn read_ivf_frames(data: &[u8], limit: usize) -> (result: Result<Vec<MediaFrame>, MediaError>)
    ensures
        data@.len() < 32 ==> result == Err::<Vec<MediaFrame>, MediaError>(MediaError::IvfHeaderTooShort),
        data@.len() >= 32 ==> (result matches Ok(frames) && frame_views(frames@) == at_most(
            ivf_frames(data@),
            limit as int,
        )),
{
    let len = data.len();
    if len < IVF_HEADER_LEN {
        return Err(MediaError::IvfHeaderTooShort);
    }
    let mut frames: Vec<MediaFrame> = Vec::new();
    let mut cursor: usize = IVF_HEADER_LEN;
    let ghost all = ivf_frames(data@);
    assert(frame_views(frames@) + ivf_frames_from(data@, cursor as int) =~= all);
    while frames.len() < limit
        invariant
            len == data@.len(),
            32 <= cursor <= len,
            frames@.len() <= limit,
            all == ivf_frames(data@),
            frame_views(frames@) + ivf_frames_from(data@, cursor as int) == all,
        ensures
            frames@.len() <= limit,
            frames@.len() == limit || ivf_frames_from(data@, cursor as int).len() == 0,
            frame_views(frames@) + ivf_frames_from(data@, cursor as int) == all,
        decreases len - cursor,
    {
        if len - cursor < IVF_FRAME_HEADER_LEN {
            break;
        }
        let size = read_u32_le(data, cursor) as usize;
        let timestamp = read_u64_le(data, cursor + 4);
        let start = cursor + IVF_FRAME_HEADER_LEN;
        if size > len - start {
            break;
        }
        let payload = slice_to_vec(slice_subrange(data, start, start + size));
        let ghost before = frame_views(frames@);
        let ghost rest = ivf_frames_from(data@, cursor as int);
        frames.push(MediaFrame { data: payload, timestamp });
        cursor = start + size;
        proof {
            let frame = FrameView { data: data@.subrange(start as int, start + size), timestamp };
            assert(rest == seq![frame] + ivf_frames_from(data@, cursor as int));
            assert(frame_views(frames@) =~= before.push(frame));
            assert(frame_views(frames@) + ivf_frames_from(data@, cursor as int) =~= before + rest);
        }
    }
    proof {
        let rest = ivf_frames_from(data@, cursor as int);
        if rest.len() == 0 {
            assert(frame_views(frames@) =~= all);
        } else {
            assert(frame_views(frames@) =~= all.subrange(0, limit as int));
        }
    }
    Ok(frames)
}

/// Reads the payloads of the blocks of a Matroska stream by scanning for the
/// block id. This is a best-effort scan, not a parser of the element tree.
pub fn parse_matroska_frames(data: &[u8]) -> (frames: Vec<Vec<u8>>)
    ensures
        payload_views(frames@) == matroska_frames(data@),
{
    let len = data.len();
    let magic: [u8; 4] = [0x1A, 0x45, 0xDF, 0xA3];
    let mut offset: usize = if len > 4 && starts_with_at(data, 0, magic.as_slice()) {
        4
    } else {
        0
    };
    assert(magic@ =~= ebml_magic());
    let mut frames: Vec<Vec<u8>> = Vec::new();
    let ghost all = matroska_frames(data@);
    assert(payload_views(frames@) + matroska_frames_from(data@, offset as int) =~= all);
    while offset < len
        invariant
            len == data@.len(),
            offset <= len,
            payload_views(frames@) + matroska_frames_from(data@, offset as int) == all,
        ensures
            payload_views(frames@) == all,
        decreases len - offset,
    {
        if data[offset] != 0xA3 {
            offset += 1;
        } else {
            if len - offset < 2 {
                assert(payload_views(frames@) =~= all);
                break;
            }
            let first = data[offset + 1];
            let (size, field_len): (usize, usize) = if first < 0x7F {
                (first as usize, 1)
            } else {
                ((first % 128) as usize * 256, 2)
            };
            let payload_len: usize = if size >= 4 {
                size - 4
            } else {
                0
            };
            let skip: usize = 1 + field_len + 4;
            if len - offset < skip || payload_len > len - offset - skip {
                assert(payload_views(frames@) =~= all);
                break;
            }
            let start = offset + skip;
            let payload = slice_to_vec(slice_subrange(data, start, start + payload_len));
            let ghost before = payload_views(frames@);
            let ghost rest = matroska_frames_from(data@, offset as int);
            frames.push(payload);
            offset = start + payload_len;
            proof {
                let taken = data@.subrange(start as int, start + payload_len);
                assert(rest == seq![taken] + matroska_frames_from(data@, offset as int));
                assert(payload_views(frames@) =~= before.push(taken));
                assert(payload_views(frames@) + matroska_frames_from(data@, offset as int)
                    =~= before + rest);
            }
        }
    }
    proof {
        if offset >= len {
            assert(payload_views(frames@) =~= all);
        }
    }
    frames
}

/// The bytes of a planar 4:2:0 frame of `width` by `height`, `None` where a
/// dimension is negative.
pub fn frame_size_420(width: i32, height: i32) -> (size: Option<u64>)
    ensures
        size matches Some(n) ==> yuv420_frame_size(width as int, height as int) == Some(n as int),
        size is None ==> yuv420_frame_size(width as int, height as int) is None,
{
    if width < 0 || height < 0 {
        return None;
    }
    let w = width as u64;
    let h = height as u64;
    assert(w * h <= 0x7FFF_FFFF * 0x7FFF_FFFF) by (nonlinear_arith)
        requires
            w <= 0x7FFF_FFFF,
            h <= 0x7FFF_FFFF,
    ;
    let luma: u64 = w * h;
    Some(luma + 2 * (luma / 4))
}

/// Reads the payloads of a Y4M stream from `offset` on, each of `frame_size`
/// bytes, `limit` of them at most.
pub fn read_y4m_frames(data: &[u8], offset: usize, frame_size: u64, limit: usize) -> (frames: Vec<
    Vec<u8>,
>)
    requires
        offset <= data@.len(),
    ensures
        payload_views(frames@) == at_most(
            y4m_frames_from(data@, offset as int, frame_size as int),
            limit as int,
        ),
{
    let len = data.len();
    let marker = "FRAME".as_bytes();
    let mut frames: Vec<Vec<u8>> = Vec::new();
    let mut at: usize = offset;
    let ghost all = y4m_frames_from(data@, offset as int, frame_size as int);
    assert(payload_views(frames@) + y4m_frames_from(data@, at as int, frame_size as int) =~= all);
    while at < len && frames.len() < limit
        invariant
            len == data@.len(),
            at <= len,
            marker@ == "FRAME".spec_bytes(),
            frames@.len() <= limit,
            payload_views(frames@) + y4m_frames_from(data@, at as int, frame_size as int) == all,
        ensures
            frames@.len() <= limit,
            frames@.len() == limit || y4m_frames_from(data@, at as int, frame_size as int).len()
                == 0,
            payload_views(frames@) + y4m_frames_from(data@, at as int, frame_size as int) == all,
        decreases len - at,
    {
        if !starts_with_at(data, at, marker) {
            at += 1;
        } else {
            let line_end = find_byte(data, at + marker.len(), 0x0A);
            let start = if line_end < len {
                line_end + 1
            } else {
                line_end
            };
            if frame_size > (len - start) as u64 {
                break;
            }
            let size = frame_size as usize;
            let payload = slice_to_vec(slice_subrange(data, start, start + size));
            let ghost before = payload_views(frames@);
            let ghost rest = y4m_frames_from(data@, at as int, frame_size as int);
            frames.push(payload);
            proof {
                let taken = data@.subrange(start as int, start + size);
                assert(start > at);
                assert(rest == seq![taken] + y4m_frames_from(
                    data@,
                    start + size,
                    frame_size as int,
                ));
                assert(payload_views(frames@) =~= before.push(taken));
                assert(payload_views(frames@) + y4m_frames_from(
                    data@,
                    start + size,
                    frame_size as int,
                ) =~= before + rest);
            }
            at = start + size;
        }
    }
    proof {
        let rest = y4m_frames_from(data@, at as int, frame_size as int);
        if rest.len() == 0 {
            assert(payload_views(frames@) =~= all);
        } else {
            assert(payload_views(frames@) =~= all.subrange(0, limit as int));
        }
    }
    frames
}

/// Finds where the header line of a Y4M stream ends.
pub fn find_y4m_header_end(data: &[u8]) -> (end: Option<usize>)
    ensures
        end matches Some(at) ==> y4m_header_end(data@) == Some(at as int) && at < data@.len(),
        end is None ==> y4m_header_end(data@) is None,
{
    let at = find_byte(data, 0, 0x0A);
    if at < data.len() {
        Some(at)
    } else {
        None
    }
}

/// Says what a token of a Y4M header line says.
pub fn classify(token: &[u8]) -> (kind: Y4mToken)
    ensures
        kind == classify_token(token@),
{
    let len = token.len();
    if len == 0 {
        return Y4mToken::Other;
    }
    let rest = slice_subrange(token, 1, len);
    let head = token[0];
    if head == 0x57 {
        Y4mToken::Width(parse_i32(rest))
    } else if head == 0x48 {
        Y4mToken::Height(parse_i32(rest))
    } else if head == 0x46 {
        let colon = find_byte(rest, 0, 0x3A);
        if colon >= rest.len() {
            return Y4mToken::Other;
        }
        let second = find_byte(rest, colon + 1, 0x3A);
        if second < rest.len() {
            return Y4mToken::Other;
        }
        let num = parse_u32(slice_subrange(rest, 0, colon));
        let den = parse_u32(slice_subrange(rest, colon + 1, rest.len()));
        Y4mToken::Rate(num, den)
    } else {
        Y4mToken::Other
    }
}

/// The tokens from `i` on are the token found there and the tokens behind it.
proof fn lemma_tokens_unfold(s: Seq<u8>, i: int, a: int, b: int)
    requires
        0 <= i <= a < s.len(),
        a == token_start(s, i),
        b == token_end(s, a),
        a < b <= s.len(),
    ensures
        tokens_from(s, i) == seq![s.subrange(a, b)] + tokens_from(s, b),
        tokens_from(s, i).len() > 0,
        tokens_from(s, i)[0] == s.subrange(a, b),
        tokens_from(s, i).drop_first() == tokens_from(s, b),
{
    let rest = tokens_from(s, b);
    let all = seq![s.subrange(a, b)] + rest;
    assert(all.drop_first() =~= rest);
}

/// Behind the last token there are no tokens.
proof fn lemma_tokens_end(s: Seq<u8>, i: int, a: int)
    requires
        0 <= i <= a,
        a == token_start(s, i),
        a >= s.len(),
    ensures
        tokens_from(s, i).len() == 0,
{
}

/// Reads the width, the height and the frame rate from a Y4M header line.
/// What the line does not give stays at 640 by 480 and 30 frames per second.
/// Only whole numbers are read: a rate is two unsigned whole numbers with a
/// colon between them, and a rate whose numerator or denominator holds a
/// fraction, as in `F29.97:1`, is refused as no number.
pub fn parse_y4m_header(header: &[u8]) -> (result: Result<(i32, i32, FrameRate), MediaError>)
    ensures
        result == y4m_header_spec(header@),
{
    let len = header.len();
    let mut fields: (i32, i32, FrameRate) = (640, 480, FrameRate { num: 30, den: 1 });
    let mut at: usize = 0;
    loop
        invariant
            len == header@.len(),
            at <= len,
            strict_fields(tokens_from(header@, at as int), fields) == y4m_header_spec(header@),
        decreases len - at,
    {
        let a = skip_white_space(header, at);
        if a >= len {
            proof {
                lemma_tokens_end(header@, at as int, a as int);
            }
            return Ok(fields);
        }
        let b = find_token_end(header, a);
        proof {
            assert(white_space_len(header@, a as int) == 0) by {
                lemma_token_start_stops(header@, at as int);
            }
            lemma_tokens_unfold(header@, at as int, a as int, b as int);
        }
        let kind = classify(slice_subrange(header, a, b));
        match kind {
            Y4mToken::Width(Some(width)) => {
                fields = (width, fields.1, fields.2);
            },
            Y4mToken::Width(None) => {
                return Err(MediaError::InvalidWidth);
            },
            Y4mToken::Height(Some(height)) => {
                fields = (fields.0, height, fields.2);
            },
            Y4mToken::Height(None) => {
                return Err(MediaError::InvalidHeight);
            },
            Y4mToken::Rate(Some(num), Some(den)) => {
                fields = (fields.0, fields.1, FrameRate { num, den });
            },
            Y4mToken::Rate(None, _) => {
                return Err(MediaError::InvalidFrameRateNumerator);
            },
            Y4mToken::Rate(Some(_), None) => {
                return Err(MediaError::InvalidFrameRateDenominator);
            },
            Y4mToken::Other => {},
        }
        at = b;
    }
}

/// Reads from a Y4M header line the width, the height and the frame rate that
/// it gives, each unknown where the line does not give it.
pub fn detect_y4m_fields(header: &[u8]) -> (fields: (Option<i32>, Option<i32>, Option<FrameRate>))
    ensures
        fields == y4m_detected_fields(header@),
{
    let len = header.len();
    let mut fields: (Option<i32>, Option<i32>, Option<FrameRate>) = (None, None, None);
    let mut at: usize = 0;
    loop
        invariant
            len == header@.len(),
            at <= len,
            lenient_fields(tokens_from(header@, at as int), fields) == y4m_detected_fields(
                header@,
            ),
        decreases len - at,
    {
        let a = skip_white_space(header, at);
        if a >= len {
            proof {
                lemma_tokens_end(header@, at as int, a as int);
            }
            return fields;
        }
        let b = find_token_end(header, a);
        proof {
            assert(white_space_len(header@, a as int) == 0) by {
                lemma_token_start_stops(header@, at as int);
            }
            lemma_tokens_unfold(header@, at as int, a as int, b as int);
        }
        let kind = classify(slice_subrange(header, a, b));
        match kind {
            Y4mToken::Width(width) => {
                fields = (width, fields.1, fields.2);
            },
            Y4mToken::Height(height) => {
                fields = (fields.0, height, fields.2);
            },
            Y4mToken::Rate(Some(num), Some(den)) => {
                fields = (fields.0, fields.1, Some(FrameRate { num, den }));
            },
            _ => {},
        }
        at = b;
    }
}

/// What stands where in a stream that holds, behind `header`, a size of four
/// bytes, a timestamp of eight, a payload, and then `tail`.
proof fn lemma_pieces(
    header: Seq<u8>,
    size_bytes: Seq<u8>,
    time_bytes: Seq<u8>,
    payload: Seq<u8>,
    tail: Seq<u8>,
)
    requires
        size_bytes.len() == 4,
        time_bytes.len() == 8,
    ensures
        (header + (size_bytes + time_bytes + payload) + tail).len() == header.len() + 12
            + payload.len() + tail.len(),
        u32_at(header + (size_bytes + time_bytes + payload) + tail, header.len() as int)
            == u32_at(size_bytes, 0),
        u64_at(header + (size_bytes + time_bytes + payload) + tail, header.len() as int + 4)
            == u64_at(time_bytes, 0),
        (header + (size_bytes + time_bytes + payload) + tail).subrange(
            header.len() as int + 12,
            header.len() as int + 12 + payload.len(),
        ) == payload,
{
    let data = header + (size_bytes + time_bytes + payload) + tail;
    let cursor = header.len() as int;
    assert(data.subrange(cursor, cursor + 4) =~= size_bytes);
    lemma_u32_at_piece(data, cursor, size_bytes);
    assert(data.subrange(cursor + 4, cursor + 12) =~= time_bytes);
    lemma_u64_at_piece(data, cursor + 4, time_bytes);
    assert(data.subrange(cursor + 12, cursor + 12 + payload.len()) =~= payload);
}

/// What stands where in a stream that holds, behind `header`, one frame
/// record and then `tail`: the size, the timestamp and the payload.
proof fn lemma_record_layout(header: Seq<u8>, payload: Seq<u8>, timestamp: u64, tail: Seq<u8>)
    requires
        payload.len() < 0x1_0000_0000,
    ensures
        (header + ivf_frame_bytes(payload, timestamp as int) + tail).len() == header.len() + 12
            + payload.len() + tail.len(),
        u32_at(header + ivf_frame_bytes(payload, timestamp as int) + tail, header.len() as int)
            == payload.len(),
        u64_at(
            header + ivf_frame_bytes(payload, timestamp as int) + tail,
            header.len() as int + 4,
        ) == timestamp,
        (header + ivf_frame_bytes(payload, timestamp as int) + tail).subrange(
            header.len() as int + 12,
            header.len() as int + 12 + payload.len(),
        ) == payload,
{
    let size_bytes = u32_le(payload.len() as int % 0x1_0000_0000);
    let time_bytes = u64_le(timestamp as int);
    lemma_u32_le_round_trip(payload.len() as int);
    lemma_u64_le_round_trip(timestamp as int);
    lemma_pieces(header, size_bytes, time_bytes, payload, tail);
}

/// The records of a list of frames, one behind the other.
pub open spec fn ivf_records(frames: Seq<FrameView>) -> Seq<u8>
    decreases frames.len(),
{
    if frames.len() == 0 {
        Seq::empty()
    } else {
        ivf_frame_bytes(frames[0].data, frames[0].timestamp as int) + ivf_records(
            frames.drop_first(),
        )
    }
}

/// Reading back what was written: behind any header, the records that the
/// writer makes of a list of frames, each of fewer than 2^32 bytes, read back,
/// from the end of the header on, as exactly those frames, in their order.
pub proof fn lemma_ivf_frames_round_trip(header: Seq<u8>, frames: Seq<FrameView>)
    requires
        forall|i: int| 0 <= i < frames.len() ==> (#[trigger] frames[i]).data.len() < 0x1_0000_0000,
    ensures
        ivf_frames_from(header + ivf_records(frames), header.len() as int) == frames,
    decreases frames.len(),
{
    let data = header + ivf_records(frames);
    let cursor = header.len() as int;
    if frames.len() == 0 {
        assert(data =~= header);
        assert(ivf_frames_from(data, cursor) =~= frames);
    } else {
        let first = frames[0];
        let rest = frames.drop_first();
        let record = ivf_frame_bytes(first.data, first.timestamp as int);
        let tail = ivf_records(rest);
        assert(data =~= header + record + tail);
        lemma_record_layout(header, first.data, first.timestamp, tail);
        assert forall|i: int| 0 <= i < rest.len() implies (#[trigger] rest[i]).data.len()
            < 0x1_0000_0000 by {
            assert(rest[i] == frames[i + 1]);
        }
        lemma_ivf_frames_round_trip(header + record, rest);
        let next = cursor + 12 + first.data.len();
        assert((header + record).len() == next);
        assert(header + record + tail =~= (header + record) + tail);
        assert(ivf_frames_from(data, next) == rest);
        assert(ivf_frames_from(data, cursor) == seq![first] + ivf_frames_from(data, next));
        assert(seq![first] + rest =~= frames);
    }
}

/// Reading back one frame record: behind any header, the record that the
/// writer makes of a payload of fewer than 2^32 bytes and a timestamp reads
/// back, from the end of the header on, as exactly one frame with that payload
/// and that timestamp.
pub proof fn lemma_ivf_frame_round_trip(header: Seq<u8>, payload: Seq<u8>, timestamp: u64)
    requires
        payload.len() < 0x1_0000_0000,
    ensures
        ivf_frames_from(header + ivf_frame_bytes(payload, timestamp as int), header.len() as int)
            == seq![FrameView { data: payload, timestamp }],
{
    let frames = seq![FrameView { data: payload, timestamp }];
    assert(ivf_records(frames.drop_first()) =~= Seq::<u8>::empty());
    assert(ivf_records(frames) =~= ivf_frame_bytes(payload, timestamp as int));
    lemma_ivf_frames_round_trip(header, frames);
}

/// Reading back one frame record behind a header of 32 bytes, the length that
/// the reader skips: the stream holds exactly one frame, with the payload and
/// the timestamp that were written.
pub proof fn lemma_ivf_round_trip(header: Seq<u8>, payload: Seq<u8>, timestamp: u64)
    requires
        header.len() == 32,
        payload.len() < 0x1_0000_0000,
    ensures
        ivf_frames(header + ivf_frame_bytes(payload, timestamp as int)) == seq![
            FrameView { data: payload, timestamp },
        ],
{
    lemma_ivf_frame_round_trip(header, payload, timestamp);
}

/// Every frame that a scan of a Y4M stream finds has the size that the scan
/// was made for.
pub proof fn lemma_y4m_frames_sized(data: Seq<u8>, offset: int, frame_size: int, i: int)
    requires
        0 <= offset,
        0 <= i < y4m_frames_from(data, offset, frame_size).len(),
    ensures
        y4m_frames_from(data, offset, frame_size)[i].len() == frame_size,
    decreases data.len() - offset,
{
    if offset < data.len() && frame_size >= 0 {
        if !has_bytes_at(data, offset, "FRAME".spec_bytes()) {
            lemma_y4m_frames_sized(data, offset + 1, frame_size, i);
        } else {
            let start = y4m_payload_start(data, offset);
            if start > offset && start + frame_size <= data.len() {
                if i > 0 {
                    lemma_y4m_frames_sized(data, start + frame_size, frame_size, i - 1);
                }
            }
        }
    }
}

/// Every payload that a scan of a Matroska stream finds is 4 bytes shorter
/// than the size that the first byte of a size field declares, or empty where
/// that size is below 4.
pub proof fn lemma_matroska_frames_sized(data: Seq<u8>, offset: int, i: int)
    requires
        0 <= offset,
        0 <= i < matroska_frames_from(data, offset).len(),
    ensures
        exists|first: u8|
            matroska_frames_from(data, offset)[i].len() == block_payload_len(
                #[trigger] block_declared_size(first),
            ),
    decreases data.len() - offset,
{
    if offset < data.len() {
        if data[offset] != 0xA3 {
            lemma_matroska_frames_sized(data, offset + 1, i);
        } else if offset + 1 < data.len() {
            let first = data[offset + 1];
            let start = offset + 1 + block_size_field_len(first) + 4;
            let len = block_payload_len(block_declared_size(first));
            if start + len <= data.len() {
                if i > 0 {
                    lemma_matroska_frames_sized(data, start + len, i - 1);
                } else {
                    assert(matroska_frames_from(data, offset)[0].len() == block_payload_len(
                        block_declared_size(first),
                    ));
                }
            }
        }
    }
}

/// Every frame of an IVF stream has the size that its record declares, which
/// fits in 32 bits.
pub proof fn lemma_ivf_frames_sized(data: Seq<u8>, cursor: int, i: int)
    requires
        0 <= cursor,
        0 <= i < ivf_frames_from(data, cursor).len(),
    ensures
        ivf_frames_from(data, cursor)[i].data.len() < 0x1_0000_0000,
    decreases data.len() - cursor,
{
    if cursor + 12 <= data.len() {
        let size = u32_at(data, cursor);
        let start = cursor + 12;
        if 0 <= size && start + size <= data.len() {
            if i > 0 {
                lemma_ivf_frames_sized(data, start + size, i - 1);
            }
        }
    }
}

/// The words of the header line that the writer writes for `width`, `height`
/// and `rate` whole frames per second.
pub open spec fn y4m_header_words(width: int, height: int, rate: nat) -> Seq<Seq<u8>> {
    seq![
        seq![0x59u8, 0x55u8, 0x56u8, 0x34u8, 0x4Du8, 0x50u8, 0x45u8, 0x47u8, 0x32u8],
        seq![0x57u8] + decimal_int(width),
        seq![0x48u8] + decimal_int(height),
        seq![0x46u8] + decimal(rate) + seq![0x3Au8, 0x31u8],
        seq![0x49u8, 0x70u8],
        seq![0x41u8, 0x31u8, 0x3Au8, 0x31u8],
        seq![0x43u8, 0x34u8, 0x32u8, 0x30u8, 0x6Du8, 0x70u8, 0x65u8, 0x67u8, 0x32u8],
    ]
}

/// The bytes of the texts that the header line is made of.
proof fn lemma_header_texts()
    ensures
        "YUV4MPEG2 W".spec_bytes() == seq![
            0x59u8, 0x55u8, 0x56u8, 0x34u8, 0x4Du8, 0x50u8, 0x45u8, 0x47u8, 0x32u8, 0x20u8, 0x57u8,
        ],
        " H".spec_bytes() == seq![0x20u8, 0x48u8],
        " F".spec_bytes() == seq![0x20u8, 0x46u8],
        ":1 Ip A1:1 C420mpeg2\n".spec_bytes() == seq![
            0x3Au8, 0x31u8, 0x20u8, 0x49u8, 0x70u8, 0x20u8, 0x41u8, 0x31u8, 0x3Au8, 0x31u8, 0x20u8,
            0x43u8, 0x34u8, 0x32u8, 0x30u8, 0x6Du8, 0x70u8, 0x65u8, 0x67u8, 0x32u8, 0x0Au8,
        ],
{
    reveal_strlit("YUV4MPEG2 W");
    reveal_strlit(" H");
    reveal_strlit(" F");
    reveal_strlit(":1 Ip A1:1 C420mpeg2\n");
    vstd::utf8::is_ascii_chars_encode_utf8("YUV4MPEG2 W"@);
    vstd::utf8::is_ascii_chars_encode_utf8(" H"@);
    vstd::utf8::is_ascii_chars_encode_utf8(" F"@);
    vstd::utf8::is_ascii_chars_encode_utf8(":1 Ip A1:1 C420mpeg2\n"@);
    assert("YUV4MPEG2 W".spec_bytes() =~= seq![
        0x59u8, 0x55u8, 0x56u8, 0x34u8, 0x4Du8, 0x50u8, 0x45u8, 0x47u8, 0x32u8, 0x20u8, 0x57u8,
    ]);
    assert(" H".spec_bytes() =~= seq![0x20u8, 0x48u8]);
    assert(" F".spec_bytes() =~= seq![0x20u8, 0x46u8]);
    assert(":1 Ip A1:1 C420mpeg2\n".spec_bytes() =~= seq![
        0x3Au8, 0x31u8, 0x20u8, 0x49u8, 0x70u8, 0x20u8, 0x41u8, 0x31u8, 0x3Au8, 0x31u8, 0x20u8,
        0x43u8, 0x34u8, 0x32u8, 0x30u8, 0x6Du8, 0x70u8, 0x65u8, 0x67u8, 0x32u8, 0x0Au8,
    ]);
}

/// Seven words joined, with a line end behind them, piece by piece.
proof fn lemma_seven_joined(words: Seq<Seq<u8>>)
    requires
        words.len() == 7,
    ensures
        joined(words) + seq![0x0Au8] == words[0] + seq![0x20u8] + (words[1] + seq![0x20u8] + (
            words[2] + seq![0x20u8] + (words[3] + seq![0x20u8] + (words[4] + seq![0x20u8] + (
                words[5] + seq![0x20u8] + (words[6] + seq![0x0Au8])))))),
{
    let sp = seq![0x20u8];
    let nl = seq![0x0Au8];
    let r1 = words.drop_first();
    let r2 = r1.drop_first();
    let r3 = r2.drop_first();
    let r4 = r3.drop_first();
    let r5 = r4.drop_first();
    let r6 = r5.drop_first();
    let x6 = words[6] + nl;
    let x5 = words[5] + sp + x6;
    let x4 = words[4] + sp + x5;
    let x3 = words[3] + sp + x4;
    let x2 = words[2] + sp + x3;
    let x1 = words[1] + sp + x2;
    assert(r6.len() == 1 && r6[0] == words[6]);
    assert(joined(r6) + nl == x6);
    assert(joined(r5) + nl =~= x5) by {
        assert(r5[0] == words[5]);
        assert(joined(r5) == r5[0] + sp + joined(r6));
    }
    assert(joined(r4) + nl =~= x4) by {
        assert(r4[0] == words[4]);
        assert(joined(r4) == r4[0] + sp + joined(r5));
    }
    assert(joined(r3) + nl =~= x3) by {
        assert(r3[0] == words[3]);
        assert(joined(r3) == r3[0] + sp + joined(r4));
    }
    assert(joined(r2) + nl =~= x2) by {
        assert(r2[0] == words[2]);
        assert(joined(r2) == r2[0] + sp + joined(r3));
    }
    assert(joined(r1) + nl =~= x1) by {
        assert(r1[0] == words[1]);
        assert(joined(r1) == r1[0] + sp + joined(r2));
    }
    assert(joined(words) + nl =~= words[0] + sp + x1) by {
        assert(joined(words) == words[0] + sp + joined(r1));
    }
}

/// The header line that the writer writes is its words with one space between
/// them and a line end behind them.
proof fn lemma_header_is_joined(width: int, height: int, rate: nat)
    ensures
        y4m_header_bytes(width, height, rate) == joined(y4m_header_words(width, height, rate))
            + seq![0x0Au8],
{
    let sp = seq![0x20u8];
    let nl = seq![0x0Au8];
    let words = y4m_header_words(width, height, rate);
    let d1 = decimal_int(width);
    let d2 = decimal_int(height);
    let d3 = decimal(rate);
    let a = "YUV4MPEG2 W".spec_bytes();
    let b = " H".spec_bytes();
    let c = " F".spec_bytes();
    let e = ":1 Ip A1:1 C420mpeg2\n".spec_bytes();
    lemma_header_texts();
    lemma_seven_joined(words);
    let x6 = words[6] + nl;
    let x5 = words[5] + sp + x6;
    let x4 = words[4] + sp + x5;
    let x3 = words[3] + sp + x4;
    let x2 = words[2] + sp + x3;
    let x1 = words[1] + sp + x2;
    let x0 = words[0] + sp + x1;
    assert(joined(words) + nl == x0);
    let colon_one = seq![0x3Au8, 0x31u8];
    assert(e =~= colon_one + sp + x4);
    let t3 = d3 + e;
    assert(t3 =~= (d3 + colon_one) + sp + x4);
    let t3c = c + t3;
    assert(c =~= sp + seq![0x46u8]);
    assert(t3c =~= sp + x3) by {
        assert(words[3] == seq![0x46u8] + d3 + colon_one);
        assert(c + t3 =~= sp + ((seq![0x46u8] + d3 + colon_one) + sp + x4));
    }
    let t2 = d2 + t3c;
    let t2b = b + t2;
    assert(b =~= sp + seq![0x48u8]);
    assert(t2b =~= sp + x2) by {
        assert(words[2] == seq![0x48u8] + d2);
        assert(b + (d2 + (sp + x3)) =~= sp + ((seq![0x48u8] + d2) + sp + x3));
    }
    let t1 = d1 + t2b;
    let t1a = a + t1;
    assert(a =~= words[0] + sp + seq![0x57u8]);
    assert(t1a =~= x0) by {
        assert(words[1] == seq![0x57u8] + d1);
        assert(a + (d1 + (sp + x2)) =~= words[0] + sp + ((seq![0x57u8] + d1) + sp + x2));
    }
    assert(y4m_header_bytes(width, height, rate) =~= t1a) by {
        assert(a + d1 + b + d2 + c + d3 + e =~= a + (d1 + (b + (d2 + (c + (d3 + e))))));
    }
}

/// A word that opens with `W` and the decimal form of a number says that
/// number as the width; with `H`, as the height.
proof fn lemma_classify_dimension(value: i32)
    ensures
        classify_token(seq![0x57u8] + decimal_int(value as int)) == Y4mToken::Width(Some(value)),
        classify_token(seq![0x48u8] + decimal_int(value as int)) == Y4mToken::Height(Some(value)),
{
    lemma_parse_decimal_i32(value);
    let text = decimal_int(value as int);
    let wide = seq![0x57u8] + text;
    let high = seq![0x48u8] + text;
    assert(wide.subrange(1, wide.len() as int) =~= text);
    assert(high.subrange(1, high.len() as int) =~= text);
}

/// A word that opens with `F` and holds the decimal digits of a number, a
/// colon and `1` says that number over 1 as the rate.
proof fn lemma_classify_rate(rate: u32)
    ensures
        classify_token(seq![0x46u8] + decimal(rate as nat) + seq![0x3Au8, 0x31u8])
            == Y4mToken::Rate(Some(rate), Some(1u32)),
{
    lemma_parse_decimal_u32(rate);
    lemma_decimal_is_word(rate as nat);
    let digits = decimal(rate as nat);
    let token = seq![0x46u8] + digits + seq![0x3Au8, 0x31u8];
    let rest = token.subrange(1, token.len() as int);
    let d = digits.len() as int;
    assert(rest =~= digits + seq![0x3Au8, 0x31u8]);
    assert forall|k: int| 0 <= k < d implies rest[k] != 0x3A by {
        assert(rest[k] == digits[k]);
    }
    lemma_first_index_skips(rest, 0, d, 0x3Au8);
    assert(rest[d] == 0x3A);
    assert(first_index(rest, d, 0x3Au8) == d);
    assert(rest[d + 1] == 0x31);
    assert(first_index(rest, d + 2, 0x3Au8) == rest.len());
    assert(first_index(rest, d + 1, 0x3Au8) == rest.len());
    assert(has_one_colon(rest));
    assert(rest.subrange(0, d) =~= digits);
    let one = rest.subrange(d + 1, rest.len() as int);
    assert(one =~= seq![0x31u8]);
    assert(one.drop_last() =~= Seq::<u8>::empty());
    assert(digits_value(one.drop_last()) == 0);
    assert(digits_value(one) == 1);
    assert(is_digit(one[0]));
    assert(parse_u32_spec(one) == Some(1u32));
}

/// The words of the header line that the writer writes are words.
proof fn lemma_header_words_are_words(width: int, height: int, rate: nat)
    ensures
        forall|k: int|
            0 <= k < 7 ==> is_word(#[trigger] y4m_header_words(width, height, rate)[k]),
{
    let words = y4m_header_words(width, height, rate);
    lemma_decimal_int_is_word(width);
    lemma_decimal_int_is_word(height);
    lemma_decimal_is_word(rate);
    assert(is_word(words[0]));
    assert(is_word(words[1])) by {
        let text = decimal_int(width);
        assert forall|k: int| 0 <= k < words[1].len() implies is_solid(#[trigger] words[1][k]) by {
            if k > 0 {
                assert(words[1][k] == text[k - 1]);
                assert(is_solid(text[k - 1]));
            }
        }
    }
    assert(is_word(words[2])) by {
        let text = decimal_int(height);
        assert forall|k: int| 0 <= k < words[2].len() implies is_solid(#[trigger] words[2][k]) by {
            if k > 0 {
                assert(words[2][k] == text[k - 1]);
                assert(is_solid(text[k - 1]));
            }
        }
    }
    assert(is_word(words[3])) by {
        let digits = decimal(rate);
        assert forall|k: int| 0 <= k < words[3].len() implies is_solid(#[trigger] words[3][k]) by {
            if 0 < k <= digits.len() {
                assert(words[3][k] == digits[k - 1]);
                assert(is_solid(digits[k - 1]));
            }
        }
    }
    assert(is_word(words[4]));
    assert(is_word(words[5]));
    assert(is_word(words[6]));
}

/// What was written reads back: the header line that the writer writes for a
/// width, a height and a rate of whole frames per second gives, when read,
/// that width, that height and that rate over 1.
pub proof fn lemma_y4m_header_round_trip(width: i32, height: i32, rate: u32)
    ensures
        y4m_header_spec(y4m_header_bytes(width as int, height as int, rate as nat)) == Ok::<
            (i32, i32, FrameRate),
            MediaError,
        >((width, height, FrameRate { num: rate, den: 1 })),
{
    let line = y4m_header_bytes(width as int, height as int, rate as nat);
    let words = y4m_header_words(width as int, height as int, rate as nat);
    lemma_header_is_joined(width as int, height as int, rate as nat);
    lemma_header_words_are_words(width as int, height as int, rate as nat);
    assert(line.subrange(0, line.len() as int) =~= line);
    lemma_words_are_tokens(line, 0, words);
    assert(tokens(line) == words);
    lemma_classify_dimension(width);
    lemma_classify_dimension(height);
    lemma_classify_rate(rate);
    let w1 = words.drop_first();
    let w2 = w1.drop_first();
    let w3 = w2.drop_first();
    let w4 = w3.drop_first();
    let w5 = w4.drop_first();
    let w6 = w5.drop_first();
    let w7 = w6.drop_first();
    let f0 = default_fields();
    let f1 = (width, 480i32, FrameRate { num: 30, den: 1 });
    let f2 = (width, height, FrameRate { num: 30, den: 1 });
    let f3 = (width, height, FrameRate { num: rate, den: 1 });
    assert(classify_token(words[0]) == Y4mToken::Other);
    assert(classify_token(words[4]) == Y4mToken::Other);
    assert(classify_token(words[5]) == Y4mToken::Other);
    assert(classify_token(words[6]) == Y4mToken::Other);
    assert(w7.len() == 0);
    assert(strict_fields(w7, f3) == Ok::<(i32, i32, FrameRate), MediaError>(f3));
    assert(w6[0] == words[6]);
    assert(strict_fields(w6, f3) == strict_fields(w7, f3));
    assert(w5[0] == words[5]);
    assert(strict_fields(w5, f3) == strict_fields(w6, f3));
    assert(w4[0] == words[4]);
    assert(strict_fields(w4, f3) == strict_fields(w5, f3));
    assert(w3[0] == words[3]);
    assert(strict_fields(w3, f2) == strict_fields(w4, f3));
    assert(w2[0] == words[2]);
    assert(strict_fields(w2, f1) == strict_fields(w3, f2));
    assert(w1[0] == words[1]);
    assert(strict_fields(w1, f0) == strict_fields(w2, f1));
    assert(strict_fields(words, f0) == strict_fields(w1, f0));
}

/// A rate is read in whole numbers only: a token `F`, a numerator, a colon
/// and a denominator, whose numerator holds a byte that is no digit, such as
/// the point of `29.97`, says a rate without a numerator, which a header line
/// read strictly refuses.
pub proof fn lemma_fraction_is_no_rate(numerator: Seq<u8>, denominator: Seq<u8>, k: int)
    requires
        0 <= k < numerator.len(),
        !is_digit(numerator[k]),
        k > 0 || numerator[0] != 0x2B,
        forall|i: int| 0 <= i < numerator.len() ==> numerator[i] != 0x3A,
        forall|i: int| 0 <= i < denominator.len() ==> denominator[i] != 0x3A,
    ensures
        classify_token(seq![0x46u8] + numerator + seq![0x3Au8] + denominator) matches Y4mToken::Rate(
            None,
            _,
        ),
        forall|fields: (i32, i32, FrameRate)|
            strict_step(
                fields,
                classify_token(seq![0x46u8] + numerator + seq![0x3Au8] + denominator),
            ) == Err::<(i32, i32, FrameRate), MediaError>(MediaError::InvalidFrameRateNumerator),
{
    let token = seq![0x46u8] + numerator + seq![0x3Au8] + denominator;
    let rest = token.subrange(1, token.len() as int);
    let n = numerator.len() as int;
    assert(rest =~= numerator + seq![0x3Au8] + denominator);
    assert forall|i: int| 0 <= i < n implies rest[i] != 0x3A by {
        assert(rest[i] == numerator[i]);
    }
    lemma_first_index_skips(rest, 0, n, 0x3Au8);
    assert(rest[n] == 0x3A);
    assert(first_index(rest, n, 0x3Au8) == n);
    assert forall|i: int| n + 1 <= i < rest.len() implies rest[i] != 0x3A by {
        assert(rest[i] == denominator[i - n - 1]);
    }
    lemma_first_index_skips(rest, n + 1, rest.len() as int, 0x3Au8);
    assert(first_index(rest, rest.len() as int, 0x3Au8) == rest.len());
    assert(has_one_colon(rest));
    assert(rest.subrange(0, n) =~= numerator);
    crate::text::lemma_parse_u32_whole_only(numerator, k);
}

} // verus!
