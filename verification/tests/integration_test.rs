use rust_av_kit::media::{
    get_supported_codecs, get_supported_formats, get_supported_pixel_formats,
    get_supported_sample_formats,
};
use rust_av_kit::types::{
    CodecOptions, FilterConfig, FormatInfo, FrameRate, MediaInfo, StreamInfo, TranscodeOptions,
};

#[test]
fn test_get_supported_formats() {
    let formats = get_supported_formats();
    assert!(!formats.is_empty());
    assert!(formats.contains(&"ivf".to_string()));
    assert!(formats.contains(&"webm".to_string()));
}

#[test]
fn test_get_supported_codecs() {
    let codecs = get_supported_codecs();
    assert!(!codecs.is_empty());
    assert!(codecs.contains(&"av1".to_string()));
    assert!(codecs.contains(&"opus".to_string()));
}

#[test]
fn test_get_supported_pixel_formats() {
    let pixel_formats = get_supported_pixel_formats();
    assert!(!pixel_formats.is_empty());
    assert!(pixel_formats.contains(&"yuv420p".to_string()));
    assert!(pixel_formats.contains(&"rgb24".to_string()));
}

#[test]
fn test_get_supported_sample_formats() {
    let sample_formats = get_supported_sample_formats();
    assert!(!sample_formats.is_empty());
    assert!(sample_formats.contains(&"s16".to_string()));
    assert!(sample_formats.contains(&"f32".to_string()));
}

#[test]
fn test_supported_lists_in_full() {
    assert_eq!(get_supported_formats(), vec!["ivf", "matroska", "webm", "y4m"]);
    assert_eq!(
        get_supported_codecs(),
        vec!["av1", "vp8", "vp9", "h264", "h265", "opus", "vorbis", "pcm"]
    );
    assert_eq!(
        get_supported_pixel_formats(),
        vec!["yuv420p", "yuv422p", "yuv444p", "rgb24", "bgr24", "rgba"]
    );
    assert_eq!(get_supported_sample_formats(), vec!["u8", "s16", "s32", "f32"]);
}

#[test]
fn test_media_info_structs() {
    let stream_info = StreamInfo {
        index: 0,
        codec_type: "video".to_string(),
        codec_name: "h264".to_string(),
        width: Some(1920),
        height: Some(1080),
        frame_rate: Some(FrameRate { num: 30, den: 1 }),
        sample_rate: None,
        channels: None,
    };

    let format_info = FormatInfo {
        name: "mp4".to_string(),
        long_name: "MP4 format".to_string(),
        start_time: Some(0),
        nb_streams: 1,
    };

    let media_info = MediaInfo { format: format_info, streams: vec![stream_info] };

    let _media_info_clone = media_info.clone();
}

#[test]
fn test_transcode_options_structs() {
    let codec_options = CodecOptions {
        codec_name: Some("h264".to_string()),
        bit_rate: Some(1000000),
        width: Some(1920),
        height: Some(1080),
        frame_rate: Some(FrameRate { num: 30, den: 1 }),
        sample_rate: None,
        channels: None,
        gop_size: Some(30),
        max_b_frames: Some(3),
        crf: Some(23),
        preset: Some("medium".to_string()),
        tune: None,
        profile: Some("high".to_string()),
        level: Some(40),
    };

    let filter_config = FilterConfig { filter_string: "scale=1280:720".to_string() };

    let transcode_options = TranscodeOptions {
        input_path: "input.mp4".to_string(),
        output_path: "output.mp4".to_string(),
        video_codec: Some(codec_options),
        audio_codec: None,
        video_filter: Some(filter_config),
        audio_filter: None,
        format: Some("mp4".to_string()),
        contrast_curve: None,
        frame_duration: 0,
    };

    let _options_clone = transcode_options.clone();
}

#[test]
fn test_frame_rate_in_whole_frames() {
    assert_eq!(FrameRate { num: 30, den: 1 }.whole(), 30);
    assert_eq!(FrameRate { num: 30000, den: 1001 }.whole(), 29);
    assert_eq!(FrameRate { num: 1, den: 2 }.whole(), 0);
    assert_eq!(FrameRate { num: 0, den: 0 }.whole(), 0);
    assert_eq!(FrameRate { num: 5, den: 0 }.whole(), u32::MAX);
    assert_eq!(FrameRate::per_second(25), FrameRate { num: 25, den: 1 });
}
