use rust_av_kit::error::{MediaError, TranscodeError};
use rust_av_kit::format::MediaFormat;
use rust_av_kit::format_parsers::{parse_matroska_frames, read_ivf_frames};
use rust_av_kit::format_writers::{write_ivf_frame, write_y4m_frame};
use rust_av_kit::transcoding::{
    generate_codec_private, pass_settings, plain_pass_settings, read_y4m_parameters, transcode,
    transcode_between, transcode_ivf_to_matroska, transcode_ivf_to_y4m,
    transcode_matroska_to_ivf, transcode_matroska_to_y4m, transcode_y4m_to_ivf,
    transcode_y4m_to_matroska, transform_format,
};
use rust_av_kit::types::{CodecOptions, FilterConfig, FrameRate, TranscodeOptions};
use rust_av_kit::video_encoding::VideoCodec;
use rust_av_kit::video_filters::VideoFilter;

fn ivf_header(fourcc: &[u8; 4], width: u16, height: u16) -> Vec<u8> {
    let mut head = vec![0u8; 32];
    head[0..4].copy_from_slice(b"DKIF");
    head[8] = 12;
    head[16..20].copy_from_slice(fourcc);
    head[24..26].copy_from_slice(&width.to_le_bytes());
    head[26..28].copy_from_slice(&height.to_le_bytes());
    head[28..32].copy_from_slice(&1u32.to_le_bytes());
    head
}

fn options(input: &str, output: &str) -> TranscodeOptions {
    TranscodeOptions {
        input_path: input.to_string(),
        output_path: output.to_string(),
        video_codec: None,
        audio_codec: None,
        video_filter: None,
        audio_filter: None,
        format: None,
        contrast_curve: None,
        frame_duration: 0,
    }
}

fn video_options(width: Option<i32>, height: Option<i32>, frame_rate: Option<FrameRate>) -> CodecOptions {
    CodecOptions {
        codec_name: None,
        bit_rate: None,
        width,
        height,
        frame_rate,
        sample_rate: None,
        channels: None,
        gop_size: None,
        max_b_frames: None,
        crf: None,
        preset: None,
        tune: None,
        profile: None,
        level: None,
    }
}

fn with_filter(mut options: TranscodeOptions, filter: &str) -> TranscodeOptions {
    options.video_filter = Some(FilterConfig { filter_string: filter.to_string() });
    options
}

fn unsupported(input: &MediaFormat, output: &MediaFormat) -> TranscodeError {
    TranscodeError::UnsupportedConversion { input: input.clone(), output: output.clone() }
}

fn count_of(haystack: &[u8], needle: &[u8]) -> usize {
    haystack.windows(needle.len()).filter(|window| *window == needle).count()
}

fn two_frame_ivf() -> Vec<u8> {
    let mut file = ivf_header(b"VP90", 320, 240);
    write_ivf_frame(&mut file, &[1u8; 100], 0);
    write_ivf_frame(&mut file, &[2u8; 100], 1);
    file
}

fn small_y4m() -> Vec<u8> {
    let mut file = b"YUV4MPEG2 W2 H2 F25:1 Ip A1:1 C420mpeg2\n".to_vec();
    write_y4m_frame(&mut file, &[1, 2, 3, 4, 5, 6], 0);
    write_y4m_frame(&mut file, &[7, 8, 9, 10, 11, 12], 1);
    file
}

fn small_matroska() -> Vec<u8> {
    let mut file = vec![0x1A, 0x45, 0xDF, 0xA3];
    file.extend_from_slice(&[0xA3, 0x0A, 0x81, 0, 0, 0x80, 1, 2, 3, 4, 5, 6]);
    file.extend_from_slice(&[0xA3, 0x06, 0x81, 1, 0, 0x80, 7, 8]);
    file
}

const WEBM_HEADER_LEN: usize = 166;
const CLUSTER_LEN: usize = 18;

#[test]
fn test_two_frame_ivf_to_y4m() {
    let input = two_frame_ivf();
    let mut output = Vec::new();
    let result = transcode(&input, &mut output, &options("in.ivf", "out.y4m"));
    assert_eq!(result, Ok(()));
    assert!(output.starts_with(b"YUV4MPEG2 W320 H240 "));
    assert_eq!(count_of(&output, b"FRAME\n"), 2);

    let mut expected = b"YUV4MPEG2 W320 H240 F30:1 Ip A1:1 C420mpeg2\n".to_vec();
    expected.extend_from_slice(b"FRAME\n");
    expected.extend_from_slice(&[1u8; 100]);
    expected.extend_from_slice(b"FRAME\n");
    expected.extend_from_slice(&[2u8; 100]);
    assert_eq!(output, expected);
}

#[test]
fn test_ivf_to_y4m_appends() {
    let input = two_frame_ivf();
    let mut output = b"kept".to_vec();
    assert_eq!(transcode_ivf_to_y4m(&input, &mut output, &options("", "")), Ok(()));
    assert!(output.starts_with(b"keptYUV4MPEG2 W320 H240 F30:1 "));
}

#[test]
fn test_settings_overrule_the_source() {
    let input = two_frame_ivf();
    let mut settings = options("in.ivf", "out.y4m");
    settings.video_codec =
        Some(video_options(Some(64), None, Some(FrameRate { num: 50, den: 2 })));
    let mut output = Vec::new();
    assert_eq!(transcode_ivf_to_y4m(&input, &mut output, &settings), Ok(()));
    assert!(output.starts_with(b"YUV4MPEG2 W64 H240 F25:1 Ip A1:1 C420mpeg2\n"));
}

#[test]
fn test_ivf_header_too_short() {
    let input = two_frame_ivf();
    for transcode_one in [transcode_ivf_to_y4m, transcode_ivf_to_matroska] {
        let mut output = Vec::new();
        let result = transcode_one(&input[..31], &mut output, &options("", ""));
        assert_eq!(result, Err(MediaError::IvfHeaderTooShort));
        assert!(output.is_empty());
    }
}

#[test]
fn test_ivf_to_matroska() {
    let mut input = ivf_header(b"AV01", 320, 240);
    write_ivf_frame(&mut input, &[1, 2, 3], 0);
    write_ivf_frame(&mut input, &[4, 5], 3);
    write_ivf_frame(&mut input, &[6], 1_000_000);
    let mut settings = options("in.ivf", "out.webm");
    settings.frame_duration = (30f64.recip() * 1000.0).to_bits();
    let mut output = Vec::new();
    assert_eq!(transcode_ivf_to_matroska(&input, &mut output, &settings), Ok(()));

    assert_eq!(&output[..4], &[0x1A, 0x45, 0xDF, 0xA3]);
    assert_eq!(&output[103..111], &(30f64.recip() * 1000.0).to_le_bytes());
    assert_eq!(&output[111..118], &[0x16, 0x54, 0xAE, 0x6B, 39, 0xAE, 37]);
    assert_eq!(&output[128..135], &[0x86, 5, b'V', b'_', b'A', b'V', b'1']);
    assert_eq!(&output[135..143], &[0x63, 0xA2, 5, 0x81, 0, 0, 0, 0]);
    let header_len = WEBM_HEADER_LEN - 3;
    assert_eq!(
        &output[header_len..header_len + CLUSTER_LEN],
        &[0x1F, 0x43, 0xB6, 0x75, 0x01, 0xFF, 0xFF, 0xFF, 0xFF, 0xFF, 0xFF, 0xFF, 0xE7, 0x83, 0, 0, 0, 0]
    );
    let mut blocks = Vec::new();
    blocks.extend_from_slice(&[0xA3, 7, 0x81, 0, 0, 0x80, 1, 2, 3]);
    blocks.extend_from_slice(&[0xA3, 6, 0x81, 99, 0, 0x80, 4, 5]);
    let time = (1_000_000u64 * 33_333_333 / 1_000_000) as u16;
    blocks.extend_from_slice(&[0xA3, 5, 0x81, time as u8, (time >> 8) as u8, 0x80, 6]);
    blocks.extend_from_slice(&[0xEC, 0x01, 0x00]);
    assert_eq!(&output[header_len + CLUSTER_LEN..], &blocks[..]);
}

#[test]
fn test_ivf_to_matroska_names_the_codec_of_the_fourcc() {
    for (fourcc, id) in [(b"AV01", "V_AV1"), (b"VP90", "V_VP9"), (b"VP80", "V_VP8"), (b"XXXX", "V_VP9")] {
        let input = ivf_header(fourcc, 2, 2);
        let mut output = Vec::new();
        assert_eq!(transcode_ivf_to_matroska(&input, &mut output, &options("", "")), Ok(()));
        assert_eq!(&output[130..135], id.as_bytes());
        assert!(output.ends_with(&[0xEC, 0x01, 0x00]));
    }
}

#[test]
fn test_frame_rate_below_one() {
    let input = two_frame_ivf();
    let mut settings = options("in.ivf", "out.webm");
    settings.video_codec = Some(video_options(None, None, Some(FrameRate { num: 1, den: 2 })));
    let mut output = Vec::new();
    let result = transcode_ivf_to_matroska(&input, &mut output, &settings);
    assert_eq!(result, Err(MediaError::FrameRateTooLow));
    assert!(output.is_empty());
}

#[test]
fn test_y4m_to_ivf() {
    let input = small_y4m();
    let mut output = Vec::new();
    assert_eq!(transcode_y4m_to_ivf(&input, &mut output, &options("", "")), Ok(()));
    let mut expected = Vec::new();
    expected.extend_from_slice(b"DKIF");
    expected.extend_from_slice(&[0, 0, 0, 0, 12, 0, 0, 0]);
    expected.extend_from_slice(b"VP90");
    expected.extend_from_slice(&[2, 0, 2, 0, 25, 0, 0, 0, 1, 0, 0, 0]);
    expected.extend_from_slice(&[6, 0, 0, 0, 0, 0, 0, 0, 0, 0, 0, 0, 1, 2, 3, 4, 5, 6]);
    expected.extend_from_slice(&[6, 0, 0, 0, 1, 0, 0, 0, 0, 0, 0, 0, 7, 8, 9, 10, 11, 12]);
    assert_eq!(output, expected);
}

#[test]
fn test_y4m_frames_follow_the_overruling_dimensions() {
    let input = small_y4m();
    let mut settings = options("", "");
    settings.video_codec = Some(video_options(Some(1), Some(1), None));
    let mut output = Vec::new();
    assert_eq!(transcode_y4m_to_ivf(&input, &mut output, &settings), Ok(()));
    assert_eq!(&output[16..20], &[1, 0, 1, 0]);
    assert_eq!(output.len(), 28 + 2 * 13);
    assert_eq!(&output[28..41], &[1, 0, 0, 0, 0, 0, 0, 0, 0, 0, 0, 0, 1]);
    assert_eq!(&output[41..], &[1, 0, 0, 0, 1, 0, 0, 0, 0, 0, 0, 0, 7]);

    settings.video_codec = Some(video_options(Some(-2), Some(2), None));
    let mut output = Vec::new();
    assert_eq!(transcode_y4m_to_ivf(&input, &mut output, &settings), Ok(()));
    assert_eq!(output.len(), 28);
}

#[test]
fn test_y4m_header_errors_end_the_pass() {
    for transcode_one in [transcode_y4m_to_ivf, transcode_y4m_to_matroska] {
        let cases: [(&[u8], MediaError); 5] = [
            (b"YUV4MPEG2 W2 H2", MediaError::Y4mHeaderMissing),
            (b"", MediaError::Y4mHeaderMissing),
            (b"YUV4MPEG2 \xFF W2\n", MediaError::Y4mHeaderNotText),
            (b"YUV4MPEG2 Wx H2\n", MediaError::InvalidWidth),
            (b"YUV4MPEG2 W2 H2 F1:x\n", MediaError::InvalidFrameRateDenominator),
        ];
        for (input, error) in cases {
            let mut output = Vec::new();
            assert_eq!(transcode_one(input, &mut output, &options("", "")), Err(error));
            assert!(output.is_empty());
        }
    }
    assert_eq!(read_y4m_parameters(b"W4 H6 F7:2\nrest"), Ok((10, (4, 6, FrameRate { num: 7, den: 2 }))));
}

#[test]
fn test_y4m_to_matroska() {
    let input = small_y4m();
    let mut output = Vec::new();
    assert_eq!(transcode_y4m_to_matroska(&input, &mut output, &options("", "")), Ok(()));
    assert_eq!(&output[130..135], b"V_VP9");
    assert_eq!(&output[135..146], &[0x63, 0xA2, 8, 1, 0, 0, 0, 2, 0, 2, 0]);
    let mut blocks = Vec::new();
    blocks.extend_from_slice(&[0xA3, 10, 0x81, 0, 0, 0x80, 1, 2, 3, 4, 5, 6]);
    blocks.extend_from_slice(&[0xA3, 10, 0x81, 1, 0, 0x80, 7, 8, 9, 10, 11, 12]);
    blocks.extend_from_slice(&[0xEC, 0x01, 0x00]);
    assert_eq!(&output[WEBM_HEADER_LEN + CLUSTER_LEN..], &blocks[..]);
    assert_eq!(
        parse_matroska_frames(&output[WEBM_HEADER_LEN + CLUSTER_LEN..]),
        vec![vec![1, 2, 3, 4, 5, 6], vec![7, 8, 9, 10, 11, 12]]
    );
}

#[test]
fn test_matroska_to_ivf() {
    let input = small_matroska();
    let mut output = Vec::new();
    assert_eq!(transcode_matroska_to_ivf(&input, &mut output, &options("", "")), Ok(()));
    let mut expected = Vec::new();
    expected.extend_from_slice(b"DKIF");
    expected.extend_from_slice(&[0, 0, 0, 0, 12, 0, 0, 0]);
    expected.extend_from_slice(b"VP90");
    expected.extend_from_slice(&[0x80, 0x02, 0xE0, 0x01, 30, 0, 0, 0, 1, 0, 0, 0]);
    expected.extend_from_slice(&[6, 0, 0, 0, 0, 0, 0, 0, 0, 0, 0, 0, 1, 2, 3, 4, 5, 6]);
    expected.extend_from_slice(&[2, 0, 0, 0, 1, 0, 0, 0, 0, 0, 0, 0, 7, 8]);
    assert_eq!(output, expected);
}

#[test]
fn test_matroska_to_y4m() {
    let input = small_matroska();
    let mut output = Vec::new();
    assert_eq!(transcode_matroska_to_y4m(&input, &mut output, &options("", "")), Ok(()));
    assert_eq!(
        output,
        b"YUV4MPEG2 W640 H480 F30:1 Ip A1:1 C420mpeg2\nFRAME\n\x01\x02\x03\x04\x05\x06FRAME\n\x07\x08"
    );
}

#[test]
fn test_frames_go_through_the_filter() {
    let input = small_y4m();
    let settings = with_filter(options("", ""), "hflip");
    let mut output = Vec::new();
    assert_eq!(transcode_y4m_to_ivf(&input, &mut output, &settings), Ok(()));
    assert_eq!(&output[40..46], &[2, 1, 4, 3, 5, 6]);
    assert_eq!(&output[58..64], &[8, 7, 10, 9, 11, 12]);

    let settings = with_filter(options("", ""), "brightness=100");
    let mut output = Vec::new();
    assert_eq!(transcode_matroska_to_y4m(&small_matroska(), &mut output, &settings), Ok(()));
    assert!(output.ends_with(b"FRAME\n\x65\x66\x67\x68\x69\x6AFRAME\n\x6B\x6C"));

    let mut curve = [0u8; 256];
    for v in 0..256 {
        curve[v] = 255 - v as u8;
    }
    let mut settings = with_filter(options("", ""), "contrast=-255");
    settings.contrast_curve = Some(curve);
    let mut output = Vec::new();
    assert_eq!(transcode_matroska_to_y4m(&small_matroska(), &mut output, &settings), Ok(()));
    assert!(output.ends_with(b"FRAME\n\xFE\xFD\xFC\xFB\xFA\xF9FRAME\n\xF8\xF7"));
}

#[test]
fn test_a_refused_frame_ends_the_pass() {
    let mut input = ivf_header(b"VP90", 2, 2);
    write_ivf_frame(&mut input, &[0u8; 150], 0);
    write_ivf_frame(&mut input, &[1, 2, 3, 4, 5, 6], 1);
    write_ivf_frame(&mut input, &[0u8; 150], 2);
    let settings = with_filter(options("", ""), "crop=4:4:0:0");

    let mut output = Vec::new();
    let result = transcode_ivf_to_y4m(&input, &mut output, &settings);
    assert_eq!(result, Err(MediaError::CropOutOfBounds));
    let header = b"YUV4MPEG2 W2 H2 F30:1 Ip A1:1 C420mpeg2\n";
    assert_eq!(output.len(), header.len() + 6 + 24);
    assert!(output.starts_with(header));
    assert_eq!(count_of(&output, b"FRAME\n"), 1);

    let mut output = Vec::new();
    let result = transcode_ivf_to_matroska(&input, &mut output, &settings);
    assert_eq!(result, Err(MediaError::CropOutOfBounds));
    assert_eq!(output.len(), WEBM_HEADER_LEN + CLUSTER_LEN + 6 + 24);
}

#[test]
fn test_pairs_of_formats() {
    let settings = plain_pass_settings(0);
    let known = [MediaFormat::Ivf, MediaFormat::Matroska, MediaFormat::Y4m];
    let input = two_frame_ivf();
    for from in &known {
        for to in &known {
            let mut output = Vec::new();
            let result = transcode_between(&input, &mut output, from, to, &settings);
            if from == to {
                assert_eq!(result, Err(unsupported(from, to)));
                assert!(output.is_empty());
            } else if *from != MediaFormat::Y4m {
                assert_eq!(result, Ok(()));
            } else {
                assert_eq!(result, Err(TranscodeError::Pass(MediaError::Y4mHeaderMissing)));
            }
        }
        let unknown = MediaFormat::Unknown("mp4".to_string());
        let mut output = Vec::new();
        assert_eq!(
            transcode_between(&input, &mut output, from, &unknown, &settings),
            Err(unsupported(from, &unknown))
        );
        assert_eq!(
            transcode_between(&input, &mut output, &unknown, from, &settings),
            Err(unsupported(&unknown, from))
        );
        assert!(output.is_empty());
    }
}

#[test]
fn test_transcode_goes_by_the_paths() {
    let input = small_y4m();
    let mut by_path = Vec::new();
    assert_eq!(transcode(&input, &mut by_path, &options("clip.y4m", "clip.ivf")), Ok(()));
    let mut direct = Vec::new();
    assert_eq!(transcode_y4m_to_ivf(&input, &mut direct, &options("", "")), Ok(()));
    assert_eq!(by_path, direct);

    let mut by_names = Vec::new();
    assert_eq!(transform_format(&input, "a/clip.y4m", "b/clip.ivf", &mut by_names, 0), Ok(()));
    assert_eq!(by_names, direct);

    let mut output = Vec::new();
    assert_eq!(
        transcode(&input, &mut output, &options("clip.y4m", "clip.mp4")),
        Err(unsupported(&MediaFormat::Y4m, &MediaFormat::Unknown("mp4".to_string())))
    );
    assert_eq!(
        transcode(&input, &mut output, &options("clip.Y4M", "clip.ivf")),
        Err(unsupported(&MediaFormat::Unknown("y4m".to_string()), &MediaFormat::Ivf))
    );
    assert!(output.is_empty());
}

#[test]
fn test_written_ivf_frames_read_back_behind_the_header() {
    let input = small_y4m();
    let mut output = Vec::new();
    assert_eq!(transcode_y4m_to_ivf(&input, &mut output, &options("", "")), Ok(()));
    let mut padded = vec![0u8; 4];
    padded.extend_from_slice(&output);
    let frames = read_ivf_frames(&padded, usize::MAX).unwrap();
    assert_eq!(frames.len(), 2);
    assert_eq!(frames[0].data, vec![1, 2, 3, 4, 5, 6]);
    assert_eq!(frames[1].data, vec![7, 8, 9, 10, 11, 12]);
    assert_eq!(frames[1].timestamp, 1);
}

#[test]
fn test_codec_private() {
    assert_eq!(
        generate_codec_private(VideoCodec::Vp9, 320, 240),
        Some(vec![1, 0, 0, 0, 0x40, 0x01, 0xF0, 0x00])
    );
    assert_eq!(
        generate_codec_private(VideoCodec::Vp9, -1, 65536),
        Some(vec![1, 0, 0, 0, 0xFF, 0xFF, 0, 0])
    );
    assert_eq!(generate_codec_private(VideoCodec::Av1, 320, 240), Some(vec![0x81, 0, 0, 0, 0]));
    assert_eq!(generate_codec_private(VideoCodec::Vp8, 320, 240), Some(vec![0, 0, 0, 0, 0]));
}

#[test]
fn test_settings_of_options() {
    let mut asked = with_filter(options("a", "b"), "Crop=2:2:0:0");
    asked.video_codec = Some(video_options(Some(4), None, Some(FrameRate { num: 24, den: 1 })));
    asked.frame_duration = 77;
    let settings = pass_settings(&asked);
    assert_eq!(settings.width, Some(4));
    assert_eq!(settings.height, None);
    assert_eq!(settings.frame_rate, Some(FrameRate { num: 24, den: 1 }));
    assert_eq!(settings.filter, Some(VideoFilter::Crop { width: 2, height: 2, x: 0, y: 0 }));
    assert_eq!(settings.contrast_curve, None);
    assert_eq!(settings.frame_duration, 77);
    let plain = plain_pass_settings(5);
    assert_eq!(plain.filter, None);
    assert_eq!(plain.frame_duration, 5);
}

#[test]
fn test_unsupported_conversion_names_both_formats() {
    let input = two_frame_ivf();
    let mut output = Vec::new();
    let error = transform_format(&input, "a/clip.ivf", "b/clip.ivf", &mut output, 0).unwrap_err();
    assert_eq!(error, unsupported(&MediaFormat::Ivf, &MediaFormat::Ivf));
    assert_eq!(error.message(), "Unsupported format conversion from ivf to ivf");

    let error = transform_format(&input, "clip.mkv", "clip.MP4", &mut output, 0).unwrap_err();
    assert_eq!(
        error,
        unsupported(&MediaFormat::Matroska, &MediaFormat::Unknown("mp4".to_string()))
    );
    assert_eq!(error.message(), "Unsupported format conversion from matroska to mp4");

    let error = transform_format(&input, "clip", "clip.y4m", &mut output, 0).unwrap_err();
    assert_eq!(error.message(), "Unsupported format conversion from  to y4m");
    assert!(output.is_empty());
}

#[test]
fn test_failed_pass_keeps_its_error() {
    let mut output = Vec::new();
    let error = transform_format(&[1, 2, 3], "clip.ivf", "clip.y4m", &mut output, 0).unwrap_err();
    assert_eq!(error, TranscodeError::Pass(MediaError::IvfHeaderTooShort));
    assert_eq!(error.message(), "Invalid IVF file: header too short");
    let error = transcode(&[1, 2, 3], &mut output, &options("clip.y4m", "clip.mkv")).unwrap_err();
    assert_eq!(error, TranscodeError::Pass(MediaError::Y4mHeaderMissing));
}

#[test]
fn test_every_pair_of_different_known_formats_is_converted() {
    let names = ["clip.ivf", "clip.mkv", "clip.webm", "clip.y4m"];
    for from in names {
        for to in names {
            let mut output = Vec::new();
            let result = transform_format(&two_frame_ivf(), from, to, &mut output, 0);
            let same = from == to || (from != "clip.ivf" && from != "clip.y4m" && to != "clip.ivf" && to != "clip.y4m");
            if same {
                assert!(matches!(result, Err(TranscodeError::UnsupportedConversion { .. })));
            } else {
                assert!(!matches!(result, Err(TranscodeError::UnsupportedConversion { .. })));
            }
        }
    }
}
