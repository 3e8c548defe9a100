use rust_av_kit::error::MediaError;
use rust_av_kit::format_parsers::{
    classify, detect_y4m_fields, find_y4m_header_end, frame_size_420, parse_matroska_frames,
    parse_y4m_header, read_ivf_frames, read_y4m_frames, Y4mToken,
};
use rust_av_kit::format_writers::{write_ivf_frame, write_y4m_frame, write_y4m_header};
use rust_av_kit::types::{MediaFrame, FrameRate};

fn ivf_header(fourcc: &[u8; 4], width: u16, height: u16) -> Vec<u8> {
    let mut head = vec![0u8; 32];
    head[0..4].copy_from_slice(b"DKIF");
    head[8] = 12;
    head[16..20].copy_from_slice(fourcc);
    head[24..26].copy_from_slice(&width.to_le_bytes());
    head[26..28].copy_from_slice(&height.to_le_bytes());
    head[28..32].copy_from_slice(&1u32.to_le_bytes());
    head
}

#[test]
fn test_y4m_header_line() {
    let header = b"YUV4MPEG2 W640 H480 F30:1 Ip A1:1 C420mpeg2\n";
    let (width, height, rate) = parse_y4m_header(header).unwrap();
    assert_eq!(width, 640);
    assert_eq!(height, 480);
    assert_eq!(rate, FrameRate { num: 30, den: 1 });
    assert_eq!(rate.num as f64 / rate.den as f64, 30.0);
    assert_eq!(
        parse_y4m_header(b"YUV4MPEG2 W640 H480 F30:1 Ip A1:1 C420mpeg2"),
        Ok((640, 480, FrameRate { num: 30, den: 1 }))
    );
}

#[test]
fn test_y4m_header_defaults() {
    let defaults = (640, 480, FrameRate { num: 30, den: 1 });
    assert_eq!(parse_y4m_header(b""), Ok(defaults));
    assert_eq!(parse_y4m_header(b"   "), Ok(defaults));
    assert_eq!(parse_y4m_header(b"YUV4MPEG2 Ip A1:1"), Ok(defaults));
    assert_eq!(parse_y4m_header(b"F30"), Ok(defaults));
    assert_eq!(parse_y4m_header(b"F30:1:2"), Ok(defaults));
    assert_eq!(parse_y4m_header(b"F"), Ok(defaults));
    assert_eq!(parse_y4m_header(b"w10 h20"), Ok(defaults));
}

#[test]
fn test_y4m_header_fields() {
    assert_eq!(
        parse_y4m_header(b"H2 W1 F30000:1001"),
        Ok((1, 2, FrameRate { num: 30000, den: 1001 }))
    );
    assert_eq!(parse_y4m_header(b"W1 W7"), Ok((7, 480, FrameRate { num: 30, den: 1 })));
    assert_eq!(parse_y4m_header(b"W-4 H+8"), Ok((-4, 8, FrameRate { num: 30, den: 1 })));
    assert_eq!(parse_y4m_header(b"F25:0"), Ok((640, 480, FrameRate { num: 25, den: 0 })));
    assert_eq!(
        parse_y4m_header("W10\u{a0}H20\u{2003}F5:1".as_bytes()),
        Ok((10, 20, FrameRate { num: 5, den: 1 }))
    );
    assert_eq!(parse_y4m_header(b"\tW10\r\nH20 "), Ok((10, 20, FrameRate { num: 30, den: 1 })));
}

#[test]
fn test_y4m_header_errors() {
    assert_eq!(parse_y4m_header(b"Wabc"), Err(MediaError::InvalidWidth));
    assert_eq!(parse_y4m_header(b"W"), Err(MediaError::InvalidWidth));
    assert_eq!(parse_y4m_header(b"W99999999999"), Err(MediaError::InvalidWidth));
    assert_eq!(parse_y4m_header(b"H"), Err(MediaError::InvalidHeight));
    assert_eq!(parse_y4m_header(b"H1.5"), Err(MediaError::InvalidHeight));
    assert_eq!(parse_y4m_header(b"Fx:1"), Err(MediaError::InvalidFrameRateNumerator));
    assert_eq!(parse_y4m_header(b"F29.97:1"), Err(MediaError::InvalidFrameRateNumerator));
    assert_eq!(parse_y4m_header(b"F-30:1"), Err(MediaError::InvalidFrameRateNumerator));
    assert_eq!(parse_y4m_header(b"F30:1.5"), Err(MediaError::InvalidFrameRateDenominator));
    assert_eq!(parse_y4m_header(b"F:1"), Err(MediaError::InvalidFrameRateNumerator));
    assert_eq!(parse_y4m_header(b"Fx:y"), Err(MediaError::InvalidFrameRateNumerator));
    assert_eq!(parse_y4m_header(b"F30:x"), Err(MediaError::InvalidFrameRateDenominator));
    assert_eq!(parse_y4m_header(b"F30:"), Err(MediaError::InvalidFrameRateDenominator));
    assert_eq!(parse_y4m_header(b"Hx Wx"), Err(MediaError::InvalidHeight));
    assert_eq!(parse_y4m_header(b"W5 Hx W6"), Err(MediaError::InvalidHeight));
}

#[test]
fn test_y4m_header_written_reads_back() {
    for (width, height, fps) in [(640, 480, 30), (2, 2, 1), (0, 0, 0), (-3, 7, 4000000000u32)] {
        let mut line = Vec::new();
        write_y4m_header(&mut line, width, height, FrameRate { num: fps, den: 1 });
        assert_eq!(parse_y4m_header(&line), Ok((width, height, FrameRate { num: fps, den: 1 })));
    }
}

#[test]
fn test_y4m_fields_detected() {
    assert_eq!(
        detect_y4m_fields(b"YUV4MPEG2 W640 H480 F30:1 Ip A1:1 C420mpeg2"),
        (Some(640), Some(480), Some(FrameRate { num: 30, den: 1 }))
    );
    assert_eq!(detect_y4m_fields(b"YUV4MPEG2"), (None, None, None));
    assert_eq!(detect_y4m_fields(b"W10 Wxx H5"), (None, Some(5), None));
    assert_eq!(detect_y4m_fields(b"Wxx W10"), (Some(10), None, None));
    assert_eq!(
        detect_y4m_fields(b"F25:1 Fx:1 F7 F1:2:3"),
        (None, None, Some(FrameRate { num: 25, den: 1 }))
    );
}

#[test]
fn test_tokens_classified() {
    assert_eq!(classify(b"W12"), Y4mToken::Width(Some(12)));
    assert_eq!(classify(b"W"), Y4mToken::Width(None));
    assert_eq!(classify(b"H-1"), Y4mToken::Height(Some(-1)));
    assert_eq!(classify(b"F30:1"), Y4mToken::Rate(Some(30), Some(1)));
    assert_eq!(classify(b"F-30:1"), Y4mToken::Rate(None, Some(1)));
    assert_eq!(classify(b"F30:1.5"), Y4mToken::Rate(Some(30), None));
    assert_eq!(classify(b"F30"), Y4mToken::Other);
    assert_eq!(classify(b"F1:2:3"), Y4mToken::Other);
    assert_eq!(classify(b"Ip"), Y4mToken::Other);
    assert_eq!(classify(b""), Y4mToken::Other);
}

#[test]
fn test_ivf_round_trip() {
    for (payload, timestamp) in [(vec![7u8; 100], 0u64), (vec![], 5), (vec![1, 2, 3], u64::MAX)] {
        let mut file = ivf_header(b"VP90", 320, 240);
        write_ivf_frame(&mut file, &payload, timestamp);
        assert_eq!(&file[0..4], b"DKIF");
        assert_eq!(&file[16..20], b"VP90");
        let frames = read_ivf_frames(&file, usize::MAX).unwrap();
        assert_eq!(frames.len(), 1);
        assert_eq!(frames[0].data.len(), payload.len());
        assert_eq!(frames[0], MediaFrame { data: payload, timestamp });
    }
}

#[test]
fn test_ivf_frames_in_order() {
    let mut file = ivf_header(b"AV01", 2, 2);
    write_ivf_frame(&mut file, &[1], 10);
    write_ivf_frame(&mut file, &[2, 2], 5);
    write_ivf_frame(&mut file, &[3, 3, 3], 7);
    let frames = read_ivf_frames(&file, usize::MAX).unwrap();
    assert_eq!(
        frames,
        vec![
            MediaFrame { data: vec![1], timestamp: 10 },
            MediaFrame { data: vec![2, 2], timestamp: 5 },
            MediaFrame { data: vec![3, 3, 3], timestamp: 7 },
        ]
    );
    assert_eq!(read_ivf_frames(&file, 2).unwrap().len(), 2);
    assert_eq!(read_ivf_frames(&file, 0).unwrap().len(), 0);
    assert_eq!(read_ivf_frames(&file, 3).unwrap(), frames);
}

#[test]
fn test_ivf_cut_short() {
    let mut file = ivf_header(b"VP90", 2, 2);
    write_ivf_frame(&mut file, &[1, 2, 3], 0);
    write_ivf_frame(&mut file, &[4, 5, 6], 1);
    let whole = file.len();
    for cut in 1..=15 {
        let frames = read_ivf_frames(&file[..whole - cut], usize::MAX).unwrap();
        assert_eq!(frames, vec![MediaFrame { data: vec![1, 2, 3], timestamp: 0 }]);
    }
    assert_eq!(read_ivf_frames(&file[..32], usize::MAX).unwrap(), vec![]);
    assert_eq!(read_ivf_frames(&file[..31], usize::MAX), Err(MediaError::IvfHeaderTooShort));
    assert_eq!(read_ivf_frames(&[], usize::MAX), Err(MediaError::IvfHeaderTooShort));
}

#[test]
fn test_matroska_blocks() {
    let mut file = vec![0x1A, 0x45, 0xDF, 0xA3, 0x00];
    file.extend_from_slice(&[0xA3, 0x06, 0x81, 0x00, 0x00, 0x80, 0x11, 0x22]);
    file.push(0x55);
    file.extend_from_slice(&[0xA3, 0x04, 0x81, 0x01, 0x00, 0x80]);
    file.extend_from_slice(&[0xA3, 0x02, 0x81, 0x01, 0x00, 0x80]);
    file.extend_from_slice(&[0xA3, 0x05, 0x81, 0x01, 0x00, 0x80, 0xA3]);
    assert_eq!(
        parse_matroska_frames(&file),
        vec![vec![0x11, 0x22], vec![], vec![], vec![0xA3]]
    );
}

#[test]
fn test_matroska_two_byte_size() {
    let mut file = vec![0xA3, 0x81, 0x30, 0x81, 0x00, 0x00, 0x80];
    file.extend_from_slice(&[7u8; 252]);
    assert_eq!(parse_matroska_frames(&file), vec![vec![7u8; 252]]);
    file.pop();
    assert_eq!(parse_matroska_frames(&file), Vec::<Vec<u8>>::new());
}

#[test]
fn test_matroska_cut_short() {
    assert_eq!(parse_matroska_frames(&[]), Vec::<Vec<u8>>::new());
    assert_eq!(parse_matroska_frames(&[0xA3]), Vec::<Vec<u8>>::new());
    assert_eq!(parse_matroska_frames(&[0xA3, 0x05, 1, 2, 3]), Vec::<Vec<u8>>::new());
    assert_eq!(parse_matroska_frames(&[0xA3, 0x05, 1, 2, 3, 4]), Vec::<Vec<u8>>::new());
    assert_eq!(parse_matroska_frames(&[0xA3, 0x05, 1, 2, 3, 4, 9]), vec![vec![9]]);
    assert_eq!(parse_matroska_frames(&[0x1A, 0x45, 0xDF, 0xA3]), Vec::<Vec<u8>>::new());
    assert_eq!(
        parse_matroska_frames(&[0x1A, 0x45, 0xDF, 0xA3, 0x00, 1, 2, 3, 4]),
        Vec::<Vec<u8>>::new()
    );
    assert_eq!(
        parse_matroska_frames(&[0x1A, 0x45, 0xDF, 0xA3, 0x04, 1, 2, 3, 4]),
        Vec::<Vec<u8>>::new()
    );
    assert_eq!(parse_matroska_frames(&[0, 0, 0, 0xA3, 0x04, 1, 2, 3, 4]), vec![Vec::<u8>::new()]);
}

#[test]
fn test_y4m_frames() {
    let mut file = b"YUV4MPEG2 W2 H2 F25:1\n".to_vec();
    let start = find_y4m_header_end(&file).unwrap() + 1;
    assert_eq!(start, file.len());
    write_y4m_frame(&mut file, &[1, 2, 3, 4, 5, 6], 0);
    file.extend_from_slice(b"junk");
    file.extend_from_slice(b"FRAME Xparam\n");
    file.extend_from_slice(&[7, 8, 9, 10, 11, 12]);
    file.extend_from_slice(b"FRAME\n");
    file.extend_from_slice(&[1, 2, 3]);
    assert_eq!(
        read_y4m_frames(&file, start, 6, usize::MAX),
        vec![vec![1, 2, 3, 4, 5, 6], vec![7, 8, 9, 10, 11, 12]]
    );
    assert_eq!(read_y4m_frames(&file, start, 6, 1), vec![vec![1, 2, 3, 4, 5, 6]]);
    assert_eq!(read_y4m_frames(&file, start, 6, 0), Vec::<Vec<u8>>::new());
    assert_eq!(read_y4m_frames(&file, file.len(), 6, usize::MAX), Vec::<Vec<u8>>::new());
    assert_eq!(read_y4m_frames(b"FRAME", 0, 0, usize::MAX), vec![Vec::<u8>::new()]);
    assert_eq!(read_y4m_frames(b"FRAMEFRAME\n", 0, 0, usize::MAX), vec![Vec::<u8>::new()]);
    assert_eq!(find_y4m_header_end(b"no line end"), None);
}

#[test]
fn test_frame_size() {
    assert_eq!(frame_size_420(320, 240), Some(115200));
    assert_eq!(frame_size_420(2, 2), Some(6));
    assert_eq!(frame_size_420(3, 3), Some(13));
    assert_eq!(frame_size_420(0, 7), Some(0));
    assert_eq!(frame_size_420(-1, 7), None);
    assert_eq!(frame_size_420(7, -1), None);
    assert_eq!(
        frame_size_420(i32::MAX, i32::MAX),
        Some(4611686014132420609 + 2 * (4611686014132420609 / 4))
    );
}
