use rust_av_kit::codec::{codec_name, codec_type, is_codec_supported, CodecType, MediaCodec};
use rust_av_kit::error::TranscodeError;
use rust_av_kit::format::{detect_format, format_long_name, format_name, MediaFormat};
use rust_av_kit::media::{validate_media_file, MediaProcessingResult};
use rust_av_kit::transcoding::transform_format;

struct TestMediaConfig {
    width: u16,
    height: u16,
    frames: u32,
}

fn yuv_frame(config: &TestMediaConfig, seed: u8) -> Vec<u8> {
    let luma = config.width as usize * config.height as usize;
    let size = luma + 2 * (luma / 4);
    (0..size).map(|i| seed.wrapping_add((i % 7) as u8)).collect()
}

fn generate_ivf_file(config: &TestMediaConfig) -> Vec<u8> {
    let mut file = vec![0u8; 32];
    file[0..4].copy_from_slice(b"DKIF");
    file[8] = 12;
    file[16..20].copy_from_slice(b"VP90");
    file[24..26].copy_from_slice(&config.width.to_le_bytes());
    file[26..28].copy_from_slice(&config.height.to_le_bytes());
    file[28..32].copy_from_slice(&1u32.to_le_bytes());
    for n in 0..config.frames {
        let frame = yuv_frame(config, n as u8);
        file.extend_from_slice(&(frame.len() as u32).to_le_bytes());
        file.extend_from_slice(&(n as u64).to_le_bytes());
        file.extend_from_slice(&frame);
    }
    file
}

fn generate_y4m_file(config: &TestMediaConfig) -> Vec<u8> {
    let mut file = format!("YUV4MPEG2 W{} H{} F25:1 Ip A1:1 C420mpeg2\n", config.width, config.height)
        .into_bytes();
    for n in 0..config.frames {
        file.extend_from_slice(b"FRAME\n");
        file.extend_from_slice(&yuv_frame(config, n as u8));
    }
    file
}

fn generate_matroska_file(config: &TestMediaConfig) -> Vec<u8> {
    let mut file = vec![0x1Au8, 0x45, 0xDF, 0xA3];
    for n in 0..config.frames {
        file.extend_from_slice(&[0xA3, 0x0A, 0x81, 0x00, 0x00, 0x80]);
        file.extend_from_slice(&[n as u8; 6]);
    }
    let _ = config.width;
    file
}

fn count_of(haystack: &[u8], needle: &[u8]) -> usize {
    haystack.windows(needle.len()).filter(|window| *window == needle).count()
}

#[test]
fn test_generate_ivf_file() {
    let config = TestMediaConfig { width: 320, height: 240, frames: 1 };
    let file = generate_ivf_file(&config);
    assert!(file.len() > 32);

    let detected = detect_format("temp_frames/test_videos/test.ivf");
    assert_eq!(detected, MediaFormat::Ivf);
    assert_eq!(format_name(&MediaFormat::Ivf), "ivf");
}

#[test]
fn test_generate_y4m_file() {
    let config = TestMediaConfig { width: 640, height: 480, frames: 1 };
    let file = generate_y4m_file(&config);
    assert!(file.starts_with(b"YUV4MPEG2 W640 H480"));

    let detected = detect_format("temp_frames/test_videos/test.y4m");
    assert_eq!(detected, MediaFormat::Y4m);
    assert_eq!(format_name(&MediaFormat::Y4m), "y4m");
}

#[test]
fn test_generate_matroska_file() {
    let config = TestMediaConfig { width: 1280, height: 720, frames: 3 };
    let file = generate_matroska_file(&config);
    assert!(file.starts_with(&[0x1A, 0x45, 0xDF, 0xA3]));

    let detected = detect_format("temp_frames/test_videos/test.mkv");
    assert_eq!(detected, MediaFormat::Matroska);
    assert_eq!(format_name(&MediaFormat::Matroska), "matroska");
}

#[test]
fn test_validate_existing_file() {
    let result = validate_media_file("temp_frames/test_validate_existing/test.ivf", true);
    assert!(result.success);
    assert!(result.format.is_some());
    assert_eq!(result.format, Some("ivf".to_string()));
}

#[test]
fn media_generation_test_test_validate_nonexistent_file() {
    let result = validate_media_file("/nonexistent/test.ivf", false);
    assert!(!result.success);
    assert!(result.message.contains("File not found"));
    assert!(result.format.is_none());
}

#[test]
fn test_codec_support_validation() {
    assert!(is_codec_supported("av1"));
    assert!(is_codec_supported("vp9"));
    assert!(is_codec_supported("h264"));
    assert!(is_codec_supported("opus"));
    assert!(is_codec_supported("pcm"));

    assert!(!is_codec_supported("unknown"));
    assert!(!is_codec_supported("unsupported"));
}

#[test]
fn test_codec_names() {
    assert_eq!(codec_name(&MediaCodec::Av1), "av1");
    assert_eq!(codec_name(&MediaCodec::Vp9), "vp9");
    assert_eq!(codec_name(&MediaCodec::H264), "h264");
    assert_eq!(codec_name(&MediaCodec::Opus), "opus");
    assert_eq!(codec_name(&MediaCodec::Vorbis), "vorbis");
}

#[test]
fn test_codec_types() {
    assert_eq!(codec_type(&MediaCodec::Av1), CodecType::Video);
    assert_eq!(codec_type(&MediaCodec::Vp8), CodecType::Video);
    assert_eq!(codec_type(&MediaCodec::H265), CodecType::Video);
    assert_eq!(codec_type(&MediaCodec::Opus), CodecType::Audio);
    assert_eq!(codec_type(&MediaCodec::Vorbis), CodecType::Audio);
    assert_eq!(codec_type(&MediaCodec::Pcm), CodecType::Audio);
}

#[test]
fn test_format_long_names() {
    assert_eq!(format_long_name(&MediaFormat::Ivf), "Indeo Video Format (IVF)");
    assert_eq!(format_long_name(&MediaFormat::Matroska), "Matroska/WebM container");
    assert_eq!(format_long_name(&MediaFormat::Y4m), "YUV4MPEG2 uncompressed video");
}

#[test]
fn test_multiple_formats_generation() {
    let formats = vec![
        (MediaFormat::Ivf, "test1.ivf"),
        (MediaFormat::Y4m, "test2.y4m"),
        (MediaFormat::Matroska, "test3.mkv"),
    ];

    for (format, filename) in &formats {
        let path = format!("temp_frames/test_videos/{}", filename);
        let detected = detect_format(&path);
        assert_eq!(detected, *format);
    }
}

#[test]
fn test_media_processing_result() {
    let result = MediaProcessingResult {
        success: true,
        message: "Test successful".to_string(),
        format: Some("ivf".to_string()),
        codec: Some("av1".to_string()),
    };

    assert!(result.success);
    assert_eq!(result.message, "Test successful");
    assert_eq!(result.format, Some("ivf".to_string()));
    assert_eq!(result.codec, Some("av1".to_string()));
}

#[test]
fn test_transform_ivf_to_matroska() {
    let config = TestMediaConfig { width: 8, height: 4, frames: 3 };
    let input = generate_ivf_file(&config);
    let mut output = Vec::new();

    assert!(transform_format(&input, "test_input.ivf", "test_output.mkv", &mut output, 0).is_ok());

    assert!(output.starts_with(&[0x1A, 0x45, 0xDF, 0xA3]));
    assert!(output.ends_with(&[0xEC, 0x01, 0x00]));
    assert_eq!(detect_format("test_output.mkv"), MediaFormat::Matroska);
}

#[test]
fn test_transform_matroska_to_ivf() {
    let config = TestMediaConfig { width: 8, height: 4, frames: 3 };
    let input = generate_matroska_file(&config);
    let mut output = Vec::new();

    assert!(transform_format(&input, "test_input.mkv", "test_output.ivf", &mut output, 0).is_ok());

    assert!(output.starts_with(b"DKIF"));
    assert_eq!(output.len(), 28 + 3 * (12 + 6));
    assert_eq!(detect_format("test_output.ivf"), MediaFormat::Ivf);
}

#[test]
fn test_transform_y4m_to_ivf() {
    let config = TestMediaConfig { width: 8, height: 4, frames: 2 };
    let input = generate_y4m_file(&config);
    let mut output = Vec::new();

    assert!(transform_format(&input, "test_input.y4m", "test_output.ivf", &mut output, 0).is_ok());

    assert!(output.starts_with(b"DKIF"));
    assert_eq!(&output[12..16], b"VP90");
    assert_eq!(output.len(), 28 + 2 * (12 + 48));
    assert_eq!(detect_format("test_output.ivf"), MediaFormat::Ivf);
}

#[test]
fn test_transform_ivf_to_y4m() {
    let config = TestMediaConfig { width: 8, height: 4, frames: 2 };
    let input = generate_ivf_file(&config);
    let mut output = Vec::new();

    assert!(transform_format(&input, "test_input.ivf", "test_output.y4m", &mut output, 0).is_ok());

    assert!(output.starts_with(b"YUV4MPEG2 W8 H4 F30:1 Ip A1:1 C420mpeg2\n"));
    assert_eq!(count_of(&output, b"FRAME\n"), 2);
    assert_eq!(detect_format("test_output.y4m"), MediaFormat::Y4m);
}

#[test]
fn test_transform_unsupported_pairs() {
    let config = TestMediaConfig { width: 8, height: 4, frames: 1 };
    let input = generate_ivf_file(&config);
    for (from, to) in [("a.ivf", "b.ivf"), ("a.mp4", "b.y4m"), ("a.y4m", "b.mp4"), ("a", "b")] {
        let mut output = Vec::new();
        let result = transform_format(&input, from, to, &mut output, 0);
        assert!(matches!(result, Err(TranscodeError::UnsupportedConversion { .. })));
        assert!(output.is_empty());
    }
}
