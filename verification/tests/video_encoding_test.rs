use rust_av_kit::error::MediaError;
use rust_av_kit::video_encoding::{
    create_encoder, Av1Encoder, Encoder, EncoderConfig, VideoCodec, VideoEncoder, Vp9Encoder,
};

#[test]
fn test_video_codec_fourcc() {
    assert_eq!(VideoCodec::Av1.fourcc(), *b"AV01");
    assert_eq!(VideoCodec::Vp9.fourcc(), *b"VP90");
    assert_eq!(VideoCodec::Vp8.fourcc(), *b"VP80");
}

#[test]
fn test_video_codec_codec_id() {
    assert_eq!(VideoCodec::Av1.codec_id(), "V_AV1");
    assert_eq!(VideoCodec::Vp9.codec_id(), "V_VP9");
    assert_eq!(VideoCodec::Vp8.codec_id(), "V_VP8");
}

#[test]
fn test_encoder_config_default() {
    let config = EncoderConfig::default();
    assert_eq!(config.codec, VideoCodec::Vp9);
    assert_eq!(config.width, 640);
    assert_eq!(config.height, 480);
    assert_eq!(config.frame_rate, 30);
}

#[test]
fn test_encoder_config_default_rest() {
    let config = EncoderConfig::default();
    assert_eq!(config.timebase_num, 1);
    assert_eq!(config.timebase_den, 30);
    assert_eq!(config.bitrate, 2_000_000);
    assert_eq!(config.keyframe_interval, 30);
    assert_eq!(config.quality, 32);
}

fn small_config(codec: VideoCodec) -> EncoderConfig {
    EncoderConfig { codec, width: 4, height: 2, ..EncoderConfig::default() }
}

#[test]
fn test_encoder_takes_a_frame_of_the_right_size() {
    let mut encoder = Vp9Encoder::new(small_config(VideoCodec::Vp9)).unwrap();
    let frame = vec![0u8; 12];
    assert!(matches!(encoder.encode_frame(&frame, 0), Ok(None)));
    assert_eq!(encoder.config().width, 4);
    assert!(encoder.flush().unwrap().is_empty());
}

#[test]
fn test_encoder_refuses_a_frame_of_another_size() {
    let mut encoder = Av1Encoder::new(small_config(VideoCodec::Av1)).unwrap();
    let short = vec![0u8; 11];
    let long = vec![0u8; 13];
    assert_eq!(encoder.encode_frame(&short, 0).unwrap_err(), MediaError::InvalidYuvSize);
    assert_eq!(encoder.encode_frame(&long, 1).unwrap_err(), MediaError::InvalidYuvSize);
    assert_eq!(*encoder.config(), small_config(VideoCodec::Av1));
}

#[test]
fn test_create_encoder() {
    assert!(matches!(create_encoder(small_config(VideoCodec::Av1)), Ok(Encoder::Av1(_))));
    assert!(matches!(create_encoder(small_config(VideoCodec::Vp9)), Ok(Encoder::Vp9(_))));
    assert!(matches!(
        create_encoder(small_config(VideoCodec::Vp8)),
        Err(MediaError::EncoderUnavailable)
    ));
}
