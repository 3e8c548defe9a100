use rust_av_kit::format::{
    detect_format, format_from_extension, format_long_name, format_name, MediaFormat,
};

#[test]
fn test_detect_ivf_format() {
    let path = "test.ivf";
    assert_eq!(detect_format(path), MediaFormat::Ivf);
}

#[test]
fn test_detect_matroska_format() {
    let path = "test.mkv";
    assert_eq!(detect_format(path), MediaFormat::Matroska);

    let path = "test.webm";
    assert_eq!(detect_format(path), MediaFormat::Matroska);
}

#[test]
fn test_detect_y4m_format() {
    let path = "test.y4m";
    assert_eq!(detect_format(path), MediaFormat::Y4m);
}

#[test]
fn test_detect_unknown_format() {
    let path = "test.mp4";
    assert!(matches!(detect_format(path), MediaFormat::Unknown(_)));
}

#[test]
fn test_format_name() {
    assert_eq!(format_name(&MediaFormat::Ivf), "ivf");
    assert_eq!(format_name(&MediaFormat::Matroska), "matroska");
    assert_eq!(format_name(&MediaFormat::Y4m), "y4m");
}

#[test]
fn test_unknown_format_keeps_lowercase_extension() {
    assert_eq!(detect_format("clip.MP4"), MediaFormat::Unknown("mp4".to_string()));
    assert_eq!(detect_format("clip.mp4"), MediaFormat::Unknown("mp4".to_string()));
}

#[test]
fn test_known_extensions_are_matched_as_written() {
    assert_eq!(detect_format("clip.IVF"), MediaFormat::Unknown("ivf".to_string()));
    assert_eq!(detect_format("clip.Webm"), MediaFormat::Unknown("webm".to_string()));
}

#[test]
fn test_no_extension_is_unknown_without_a_name() {
    assert_eq!(detect_format("clip"), MediaFormat::Unknown(String::new()));
    assert_eq!(detect_format(""), MediaFormat::Unknown(String::new()));
    assert_eq!(detect_format(".ivf"), MediaFormat::Unknown(String::new()));
}

#[test]
fn test_same_extension_same_format() {
    assert_eq!(detect_format("a/b/first.y4m"), detect_format("other.y4m"));
    assert_eq!(detect_format("first.xyz"), detect_format("dir/second.xyz"));
    assert_eq!(detect_format("movie.old.mkv"), detect_format("movie.mkv"));
}

#[test]
fn test_format_from_extension() {
    assert_eq!(format_from_extension(Some("ivf")), MediaFormat::Ivf);
    assert_eq!(format_from_extension(Some("mkv")), MediaFormat::Matroska);
    assert_eq!(format_from_extension(Some("webm")), MediaFormat::Matroska);
    assert_eq!(format_from_extension(Some("y4m")), MediaFormat::Y4m);
    assert_eq!(format_from_extension(Some("AVI")), MediaFormat::Unknown("avi".to_string()));
    assert_eq!(format_from_extension(None), MediaFormat::Unknown(String::new()));
}

#[test]
fn test_unknown_format_names() {
    let format = MediaFormat::Unknown("mp4".to_string());
    assert_eq!(format_name(&format), "mp4");
    assert_eq!(format_long_name(&format), "Unknown format: mp4");
}
