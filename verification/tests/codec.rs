use image_derivatives::codec::{
    drop_alpha, encode_image, read_image_to_buffer, sample_layout, EncodeError, SampleLayout,
};
use image_derivatives::pixels::PixelBuffer;

fn sample_buffer() -> PixelBuffer {
    let samples: Vec<u8> = (0..4 * 5 * 4).map(|i| (i * 11 % 256) as u8).collect();
    PixelBuffer::from_raw(5, 4, samples).unwrap()
}

#[test]
fn png_keeps_every_sample() {
    let buffer = sample_buffer();
    let bytes = encode_image(&buffer, "png").unwrap();
    assert_eq!(&bytes[..8], b"\x89PNG\r\n\x1a\n");
    let decoded = read_image_to_buffer("copy.png", &bytes).unwrap();
    assert_eq!((decoded.width(), decoded.height()), (5, 4));
    assert_eq!(decoded.samples(), buffer.samples());
}

#[test]
fn webp_keeps_every_sample() {
    let buffer = sample_buffer();
    let bytes = encode_image(&buffer, "webp").unwrap();
    assert_eq!(&bytes[..4], b"RIFF");
    let decoded = read_image_to_buffer("dir/copy.WebP", &bytes).unwrap();
    assert_eq!(decoded.samples(), buffer.samples());
}

#[test]
fn jpeg_is_encoded_without_alpha() {
    let buffer = PixelBuffer::from_raw(8, 8, vec![90u8; 4 * 8 * 8]).unwrap();
    let bytes = encode_image(&buffer, "jpg").unwrap();
    assert_eq!(&bytes[..3], &[0xff, 0xd8, 0xff]);
    let decoded = read_image_to_buffer("copy.jpeg", &bytes).unwrap();
    assert_eq!((decoded.width(), decoded.height()), (8, 8));
    for y in 0..8 {
        for x in 0..8 {
            let pixel = decoded.get_pixel(x, y).unwrap();
            assert_eq!(pixel[3], 255);
            assert!(pixel[0].abs_diff(90) <= 2);
        }
    }
    assert_eq!(encode_image(&buffer, "JPEG").unwrap(), bytes);
}

#[test]
fn gif_is_encoded() {
    let buffer = PixelBuffer::from_raw(2, 2, vec![255u8; 16]).unwrap();
    let bytes = encode_image(&buffer, "gif").unwrap();
    assert_eq!(&bytes[..3], b"GIF");
    let decoded = read_image_to_buffer("copy.gif", &bytes).unwrap();
    assert_eq!((decoded.width(), decoded.height()), (2, 2));
    assert_eq!(decoded.samples(), buffer.samples());
}

#[test]
fn encoding_the_same_picture_twice_gives_the_same_bytes() {
    let buffer = sample_buffer();
    assert_eq!(encode_image(&buffer, "png").unwrap(), encode_image(&buffer, "png").unwrap());
    assert_eq!(encode_image(&buffer, "jpg").unwrap(), encode_image(&buffer, "jpg").unwrap());
}

#[test]
fn unsupported_extensions_are_refused() {
    let buffer = sample_buffer();
    assert_eq!(encode_image(&buffer, "avif"), Err(EncodeError::UnsupportedExtension));
    assert_eq!(encode_image(&buffer, "bmp"), Err(EncodeError::UnsupportedExtension));
    assert_eq!(encode_image(&buffer, ""), Err(EncodeError::UnsupportedExtension));
    assert_eq!(encode_image(&buffer, "txt"), Err(EncodeError::UnsupportedExtension));
}

#[test]
fn a_picture_that_an_encoder_cannot_hold_is_rejected() {
    let empty = PixelBuffer::from_raw(0, 0, Vec::new()).unwrap();
    assert_eq!(encode_image(&empty, "jpg"), Err(EncodeError::Rejected));
    let wide = PixelBuffer::from_raw(70000, 1, vec![0u8; 4 * 70000]).unwrap();
    assert_eq!(encode_image(&wide, "jpg"), Err(EncodeError::Rejected));
    assert_eq!(encode_image(&wide, "gif"), Err(EncodeError::Rejected));
    assert!(encode_image(&wide, "png").is_ok());
}

#[test]
fn drop_alpha_keeps_three_samples_of_four() {
    let buffer = PixelBuffer::from_raw(2, 1, vec![1, 2, 3, 4, 5, 6, 7, 8]).unwrap();
    assert_eq!(drop_alpha(&buffer), vec![1, 2, 3, 5, 6, 7]);
    let empty = PixelBuffer::from_raw(0, 3, Vec::new()).unwrap();
    assert_eq!(drop_alpha(&empty), Vec::<u8>::new());
}

#[test]
fn the_format_is_the_one_of_the_extension() {
    let bytes = encode_image(&sample_buffer(), "png").unwrap();
    assert!(read_image_to_buffer("copy.png", &bytes).is_some());
    assert!(read_image_to_buffer("copy.PNG", &bytes).is_some());
    assert!(read_image_to_buffer("copy.jpg", &bytes).is_none());
    assert!(read_image_to_buffer("copy", &bytes).is_none());
    assert!(read_image_to_buffer(".png", &bytes).is_none());
    assert!(read_image_to_buffer("dir.png/copy", &bytes).is_none());
    assert!(read_image_to_buffer("copy.txt", &bytes).is_none());
    assert!(read_image_to_buffer("copy.png", &[]).is_none());
    assert!(read_image_to_buffer("copy.png", &bytes[..20]).is_none());
}

#[test]
fn pictures_of_other_layouts_come_out_as_rgba() {
    let gray = image::GrayImage::from_raw(2, 1, vec![10, 200]).unwrap();
    let mut bytes = std::io::Cursor::new(Vec::new());
    gray.write_to(&mut bytes, image::ImageFormat::Png).unwrap();
    let decoded = read_image_to_buffer("gray.png", bytes.get_ref()).unwrap();
    assert_eq!(decoded.samples(), &vec![10, 10, 10, 255, 200, 200, 200, 255]);
}

#[test]
fn encoders_answer_for_pictures_at_their_limits() {
    let empty = PixelBuffer::from_raw(0, 0, Vec::new()).unwrap();
    let flat = PixelBuffer::from_raw(5, 0, Vec::new()).unwrap();
    let wide = PixelBuffer::from_raw(70000, 1, vec![0u8; 4 * 70000]).unwrap();
    for extension in ["jpg", "jpeg", "png", "gif", "webp"] {
        for picture in [&empty, &flat, &wide] {
            match encode_image(picture, extension) {
                Ok(bytes) => assert!(!bytes.is_empty()),
                Err(error) => assert_eq!(error, EncodeError::Rejected),
            }
        }
    }
}

#[test]
fn only_jpeg_is_encoded_without_alpha() {
    assert_eq!(sample_layout("jpg"), Some(SampleLayout::Rgb));
    assert_eq!(sample_layout("JPEG"), Some(SampleLayout::Rgb));
    assert_eq!(sample_layout("png"), Some(SampleLayout::Rgba));
    assert_eq!(sample_layout("gif"), Some(SampleLayout::Rgba));
    assert_eq!(sample_layout("WebP"), Some(SampleLayout::Rgba));
    assert_eq!(sample_layout("avif"), None);
    assert_eq!(sample_layout("jfif"), None);
    assert_eq!(sample_layout(""), None);
}
