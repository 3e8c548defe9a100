use rust_av_kit::codec::{
    codec_name, codec_type, is_codec_supported, is_supported_codec_name, CodecType, MediaCodec,
};

#[test]
fn test_codec_name() {
    assert_eq!(codec_name(&MediaCodec::Av1), "av1");
    assert_eq!(codec_name(&MediaCodec::H264), "h264");
    assert_eq!(codec_name(&MediaCodec::Opus), "opus");
}

#[test]
fn test_codec_type() {
    assert_eq!(codec_type(&MediaCodec::Av1), CodecType::Video);
    assert_eq!(codec_type(&MediaCodec::Opus), CodecType::Audio);
    assert_eq!(codec_type(&MediaCodec::Unknown("test".to_string())), CodecType::Unknown);
}

#[test]
fn test_is_codec_supported() {
    assert!(is_codec_supported("av1"));
    assert!(is_codec_supported("H264"));
    assert!(is_codec_supported("OPUS"));
    assert!(!is_codec_supported("unknown"));
}

#[test]
fn test_every_codec_name() {
    assert_eq!(codec_name(&MediaCodec::Vp8), "vp8");
    assert_eq!(codec_name(&MediaCodec::Vp9), "vp9");
    assert_eq!(codec_name(&MediaCodec::H265), "h265");
    assert_eq!(codec_name(&MediaCodec::Vorbis), "vorbis");
    assert_eq!(codec_name(&MediaCodec::Pcm), "pcm");
    assert_eq!(codec_name(&MediaCodec::Unknown("mjpeg".to_string())), "mjpeg");
}

#[test]
fn test_supported_name_is_matched_as_written() {
    assert!(is_supported_codec_name("vorbis"));
    assert!(!is_supported_codec_name("Vorbis"));
    assert!(!is_supported_codec_name(""));
    assert!(!is_supported_codec_name("av1 "));
}

#[test]
fn test_supported_whatever_the_case() {
    assert!(is_codec_supported("Vp8"));
    assert!(is_codec_supported("VORBIS"));
    assert!(is_codec_supported("h265"));
    assert!(!is_codec_supported(""));
    assert!(!is_codec_supported("mp3"));
}
