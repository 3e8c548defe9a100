use rust_av_kit::error::MediaError;
use rust_av_kit::format::MediaFormat;
use rust_av_kit::media::{
    create_processor, get_media_info, get_media_summary, media_info_for, validate_media_file,
    MediaProcessor,
};
use rust_av_kit::types::FrameRate;

#[test]
fn test_media_processor_detect_format() {
    let processor = create_processor();

    let ivf_path = "test.ivf";
    assert_eq!(processor.detect_format(&ivf_path), Some(MediaFormat::Ivf));

    let unknown_path = "test.unknown";
    assert_eq!(processor.detect_format(&unknown_path), None);
}

#[test]
fn test_media_processor_supported_formats() {
    let processor = create_processor();
    let formats = processor.supported_formats();

    assert!(formats.contains(&"ivf".to_string()));
    assert!(formats.contains(&"matroska".to_string()));
    assert!(formats.contains(&"webm".to_string()));
    assert!(formats.contains(&"y4m".to_string()));
}

#[test]
fn test_media_processor_supported_codecs() {
    let processor = create_processor();
    let codecs = processor.supported_codecs();

    assert!(codecs.contains(&"av1".to_string()));
    assert!(codecs.contains(&"vp9".to_string()));
    assert!(codecs.contains(&"h264".to_string()));
    assert!(codecs.contains(&"opus".to_string()));
}

#[test]
fn test_validate_media_file_not_found() {
    let result = validate_media_file("/nonexistent/file.ivf", false);
    assert!(!result.success);
    assert!(result.message.contains("File not found"));
}

#[test]
fn test_validate_media_file_found() {
    let result = validate_media_file("clips/test.ivf", true);
    assert!(result.success);
    assert_eq!(result.message, "Format detected successfully");
    assert_eq!(result.format, Some("ivf".to_string()));
    assert_eq!(result.codec, None);

    let result = validate_media_file("clips/test.mp4", true);
    assert!(!result.success);
    assert_eq!(result.message, "Unknown format");
    assert_eq!(result.format, None);
}

#[test]
fn test_validate_media_file_names_the_missing_file() {
    let result = validate_media_file("/nonexistent/file.ivf", false);
    assert_eq!(result.message, "File not found: /nonexistent/file.ivf");
    assert_eq!(result.format, None);
    assert_eq!(result.codec, None);
}

#[test]
fn test_media_summary() {
    let summary = get_media_summary("a.y4m");
    assert_eq!(
        summary,
        "File: a.y4m\nFormat: YUV4MPEG2 uncompressed video\nSupported Formats: [\"ivf\", \"matroska\", \"webm\", \"y4m\"]\nSupported Codecs: [\"av1\", \"vp8\", \"vp9\", \"h264\", \"h265\", \"opus\", \"vorbis\", \"pcm\"]"
    );
    assert!(get_media_summary("a.mp4").contains("\nFormat: Unknown format\n"));
}

fn ivf_head(fourcc: &[u8; 4], width: u16, height: u16) -> Vec<u8> {
    let mut head = vec![0u8; 32];
    head[0..4].copy_from_slice(b"DKIF");
    head[16..20].copy_from_slice(fourcc);
    head[24..26].copy_from_slice(&width.to_le_bytes());
    head[26..28].copy_from_slice(&height.to_le_bytes());
    head[28..32].copy_from_slice(&1u32.to_le_bytes());
    head
}

#[test]
fn test_media_info_of_an_ivf_file() {
    let head = ivf_head(b"VP90", 320, 240);
    let info = get_media_info("clip.ivf", 4096, &head).unwrap();
    assert_eq!(info.format.name, "ivf");
    assert_eq!(info.format.long_name, "Indeo Video Format (IVF)");
    assert_eq!(info.format.start_time, Some(0));
    assert_eq!(info.format.nb_streams, 1);
    assert_eq!(info.streams.len(), 1);
    let stream = &info.streams[0];
    assert_eq!(stream.index, 0);
    assert_eq!(stream.codec_type, "video");
    assert_eq!(stream.codec_name, "vp9");
    assert_eq!(stream.width, Some(320));
    assert_eq!(stream.height, Some(240));
    assert_eq!(stream.frame_rate, Some(FrameRate { num: 30, den: 1 }));
    assert_eq!(stream.sample_rate, None);
    assert_eq!(stream.channels, None);
}

#[test]
fn test_media_info_errors() {
    let head = ivf_head(b"VP90", 320, 240);
    assert_eq!(get_media_info("clip.ivf", 0, &[]).unwrap_err(), MediaError::FileEmpty);
    assert_eq!(get_media_info("clip.ivf", 31, &head[..31]).unwrap_err(), MediaError::FileTooSmall);
    assert_eq!(get_media_info("clip.mp4", 4096, &head).unwrap_err(), MediaError::InvalidMedia);
    let zeros = vec![0u8; 64];
    assert_eq!(get_media_info("clip.ivf", 64, &zeros).unwrap_err(), MediaError::InvalidMedia);
    assert_eq!(media_info_for(64, &zeros, Some("mkv")).unwrap_err(), MediaError::InvalidMedia);
}

#[test]
fn test_media_info_of_a_matroska_file() {
    let mut head = vec![0x1Au8, 0x45, 0xDF, 0xA3];
    head.extend_from_slice(&[0u8; 60]);
    let info = media_info_for(64, &head, Some("webm")).unwrap();
    assert_eq!(info.format.name, "matroska");
    assert_eq!(info.streams.len(), 1);
    assert_eq!(info.streams[0].codec_name, "vp9");
    assert_eq!(info.streams[0].width, None);
    let info = media_info_for(64, &head, Some("mkv")).unwrap();
    assert_eq!(info.streams[0].codec_name, "h264");
}
