use rust_av_kit::error::MediaError;
use rust_av_kit::format::MediaFormat;
use rust_av_kit::format_writers::{write_ivf_frame, write_y4m_frame};
use rust_av_kit::transcoding::{extract_frames, FrameData};
use rust_av_kit::video_encoding::yuv420_to_frame;

fn ivf_header(width: u16, height: u16) -> Vec<u8> {
    let mut head = vec![0u8; 32];
    head[0..4].copy_from_slice(b"DKIF");
    head[16..20].copy_from_slice(b"VP90");
    head[24..26].copy_from_slice(&width.to_le_bytes());
    head[26..28].copy_from_slice(&height.to_le_bytes());
    head
}

#[test]
fn test_frame_of_a_picture() {
    let data: Vec<u8> = (0..12).collect();
    let frame = yuv420_to_frame(&data, 4, 2).unwrap().frame;

    let luma = &frame.planes[0];
    assert_eq!(luma.cfg.stride, 64);
    assert_eq!(luma.cfg.alloc_height, 8);
    assert_eq!(&luma.data_origin()[0..5], &[0, 1, 2, 3, 128]);
    assert_eq!(&luma.data_origin()[64..69], &[4, 5, 6, 7, 128]);
    assert_eq!(luma.data_origin()[128], 128);

    let first = &frame.planes[1];
    assert_eq!(first.cfg.stride, 64);
    assert_eq!(first.cfg.alloc_height, 4);
    assert_eq!(&first.data_origin()[0..3], &[8, 9, 128]);
    assert_eq!(first.data_origin()[64], 128);

    let second = &frame.planes[2];
    assert_eq!(&second.data_origin()[0..3], &[10, 11, 128]);
}

#[test]
fn test_frame_of_a_larger_picture() {
    let width = 70;
    let height = 10;
    let luma_len = width * height;
    let data: Vec<u8> = (0..luma_len + 2 * (luma_len / 4)).map(|i| (i % 251) as u8).collect();
    let frame = yuv420_to_frame(&data, width, height).unwrap().frame;
    assert_eq!(frame.planes[0].cfg.stride, 128);
    assert_eq!(frame.planes[0].cfg.alloc_height, 16);
    assert_eq!(frame.planes[1].cfg.stride, 64);
    assert_eq!(frame.planes[1].cfg.alloc_height, 8);
    for row in 0..height {
        for column in 0..width {
            assert_eq!(
                frame.planes[0].data_origin()[row * 128 + column],
                data[row * width + column]
            );
        }
    }
    for row in 0..height / 2 {
        for column in 0..width / 2 {
            let at = row * (width / 2) + column;
            assert_eq!(frame.planes[1].data_origin()[row * 64 + column], data[luma_len + at]);
            assert_eq!(
                frame.planes[2].data_origin()[row * 64 + column],
                data[luma_len + luma_len / 4 + at]
            );
        }
    }
}

#[test]
fn test_frame_refused() {
    let data: Vec<u8> = (0..12).collect();
    assert!(matches!(yuv420_to_frame(&data[..11], 4, 2), Err(MediaError::InsufficientYuvData)));
    assert!(matches!(yuv420_to_frame(&data, 4, 3), Err(MediaError::InsufficientYuvData)));
    assert!(matches!(
        yuv420_to_frame(&data, usize::MAX, usize::MAX),
        Err(MediaError::InsufficientYuvData)
    ));
    assert!(matches!(yuv420_to_frame(&data, 1, 4), Err(MediaError::InvalidFrameDimensions)));
    assert!(matches!(yuv420_to_frame(&data, 0, 4), Err(MediaError::InvalidFrameDimensions)));
    assert!(matches!(
        yuv420_to_frame(&data, 2, usize::MAX / 4),
        Err(MediaError::InsufficientYuvData)
    ));
    assert!(yuv420_to_frame(&data, 2, 0).is_ok());
    assert!(yuv420_to_frame(&data, 2, 4).is_ok());
}

#[test]
fn test_frames_extracted_from_ivf() {
    let mut file = ivf_header(4, 2);
    write_ivf_frame(&mut file, &[1; 12], 7);
    write_ivf_frame(&mut file, &[2; 12], 8);
    write_ivf_frame(&mut file, &[3; 12], 9);
    let frames = extract_frames(&file, &MediaFormat::Ivf, u32::MAX).unwrap();
    assert_eq!(
        frames,
        vec![
            FrameData { frame_number: 0, width: 4, height: 2, yuv_data: vec![1; 12] },
            FrameData { frame_number: 1, width: 4, height: 2, yuv_data: vec![2; 12] },
            FrameData { frame_number: 2, width: 4, height: 2, yuv_data: vec![3; 12] },
        ]
    );
    assert_eq!(extract_frames(&file, &MediaFormat::Ivf, 2).unwrap().len(), 2);
    assert_eq!(extract_frames(&file, &MediaFormat::Ivf, 0).unwrap().len(), 0);
    assert_eq!(
        extract_frames(&file[..20], &MediaFormat::Ivf, 2),
        Err(MediaError::IvfHeaderTooShort)
    );
}

#[test]
fn test_frames_extracted_from_y4m() {
    let mut file = b"YUV4MPEG2 W2 H2 F25:1\n".to_vec();
    write_y4m_frame(&mut file, &[1, 2, 3, 4, 5, 6], 0);
    write_y4m_frame(&mut file, &[6, 5, 4, 3, 2, 1], 1);
    let frames = extract_frames(&file, &MediaFormat::Y4m, u32::MAX).unwrap();
    assert_eq!(
        frames,
        vec![
            FrameData { frame_number: 0, width: 2, height: 2, yuv_data: vec![1, 2, 3, 4, 5, 6] },
            FrameData { frame_number: 1, width: 2, height: 2, yuv_data: vec![6, 5, 4, 3, 2, 1] },
        ]
    );
    assert_eq!(extract_frames(&file, &MediaFormat::Y4m, 1).unwrap().len(), 1);
    assert_eq!(
        extract_frames(b"YUV4MPEG2 W2 H2", &MediaFormat::Y4m, 1),
        Err(MediaError::Y4mHeaderMissing)
    );
    assert_eq!(extract_frames(b"W-2 H2\nFRAME\n123456", &MediaFormat::Y4m, 9), Ok(vec![]));
}

#[test]
fn test_no_frames_extracted_from_other_formats() {
    let file = vec![0x1A, 0x45, 0xDF, 0xA3, 0, 0, 0, 0];
    assert_eq!(
        extract_frames(&file, &MediaFormat::Matroska, 1),
        Err(MediaError::UnsupportedExtraction)
    );
    assert_eq!(
        extract_frames(&file, &MediaFormat::Unknown("mp4".to_string()), 1),
        Err(MediaError::UnsupportedExtraction)
    );
}

#[test]
fn test_error_messages() {
    assert_eq!(MediaError::IvfHeaderTooShort.message(), "Invalid IVF file: header too short");
    assert_eq!(MediaError::Y4mHeaderMissing.message(), "Invalid Y4M file: no header found");
    assert_eq!(MediaError::CropOutOfBounds.message(), "Crop parameters exceed frame dimensions");
    assert_eq!(MediaError::FileEmpty.message(), "File is empty");
    assert_eq!(
        MediaError::FileTooSmall.message(),
        "File is too small to be a valid media file"
    );
    assert_eq!(MediaError::InvalidMedia.message(), "Invalid or corrupted media file");
    assert_eq!(
        MediaError::InsufficientYuvData.message(),
        "Insufficient YUV data for frame dimensions"
    );
    assert_eq!(MediaError::EncoderUnavailable.message(), "VP8 encoding not yet implemented");
    assert_eq!(MediaError::FrameRateTooLow.message(), "Frame rate below one frame per second");
}
