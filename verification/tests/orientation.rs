use image::imageops::{flip_horizontal, flip_vertical, rotate180, rotate270, rotate90};
use image::ImageEncoder;
use image_derivatives::orientation::{fix_rotation, ExifRotation};
use image_derivatives::pixels::{PixelBuffer, Primitive};

/// A 3 x 2 picture whose every sample differs from all the others.
fn sample_buffer() -> PixelBuffer {
    let samples: Vec<u8> = (0u8..24).collect();
    PixelBuffer::from_raw(3, 2, samples).unwrap()
}

fn as_image(buffer: &PixelBuffer) -> image::RgbaImage {
    image::RgbaImage::from_raw(buffer.width(), buffer.height(), buffer.samples().clone()).unwrap()
}

fn assert_same(buffer: &PixelBuffer, expected: &image::RgbaImage) {
    assert_eq!(buffer.width(), expected.width());
    assert_eq!(buffer.height(), expected.height());
    assert_eq!(buffer.samples(), expected.as_raw());
}

/// The bytes of a minimal block of metadata that holds one orientation
/// field with the given value, as a 16-bit number.
fn tiff_with_orientation(value: u16) -> Vec<u8> {
    let mut bytes = vec![b'M', b'M', 0x00, 0x2a, 0x00, 0x00, 0x00, 0x08];
    bytes.extend_from_slice(&[0x00, 0x01]);
    bytes.extend_from_slice(&[0x01, 0x12, 0x00, 0x03, 0x00, 0x00, 0x00, 0x01]);
    bytes.extend_from_slice(&value.to_be_bytes());
    bytes.extend_from_slice(&[0x00, 0x00]);
    bytes.extend_from_slice(&[0x00, 0x00, 0x00, 0x00]);
    bytes
}

/// A PNG file of the sample picture with the given metadata block.
fn png_with_metadata(buffer: &PixelBuffer, metadata: Option<Vec<u8>>) -> Vec<u8> {
    let mut out = Vec::new();
    let mut encoder = image::codecs::png::PngEncoder::new(&mut out);
    if let Some(block) = metadata {
        encoder.set_exif_metadata(block).unwrap();
    }
    encoder
        .write_image(
            buffer.samples(),
            buffer.width(),
            buffer.height(),
            image::ExtendedColorType::Rgba8,
        )
        .unwrap();
    out
}

#[test]
fn resolve_follows_the_table() {
    assert_eq!(ExifRotation::resolve(Some(1)), ExifRotation::Upright);
    assert_eq!(ExifRotation::resolve(Some(2)), ExifRotation::FlippedHorizontal);
    assert_eq!(ExifRotation::resolve(Some(3)), ExifRotation::Rotated180);
    assert_eq!(ExifRotation::resolve(Some(4)), ExifRotation::FlippedVertical);
    assert_eq!(ExifRotation::resolve(Some(5)), ExifRotation::Rotated90CWFlippedHorizontal);
    assert_eq!(ExifRotation::resolve(Some(6)), ExifRotation::Rotated90CCW);
    assert_eq!(ExifRotation::resolve(Some(7)), ExifRotation::Rotated90CCWFlippedHorizontal);
    assert_eq!(ExifRotation::resolve(Some(8)), ExifRotation::Rotated90CW);
}

#[test]
fn resolve_falls_back_to_upright() {
    assert_eq!(ExifRotation::resolve(None), ExifRotation::Upright);
    assert_eq!(ExifRotation::resolve(Some(0)), ExifRotation::Upright);
    assert_eq!(ExifRotation::resolve(Some(9)), ExifRotation::Upright);
    assert_eq!(ExifRotation::resolve(Some(u32::MAX)), ExifRotation::Upright);
}

#[test]
fn try_from_accepts_exactly_the_codes() {
    for code in 1u32..=8 {
        let rotation = ExifRotation::try_from(code).unwrap();
        assert_eq!(rotation.to_code(), code);
    }
    assert_eq!(ExifRotation::try_from(0u32), Err("only values 1 to 8 are supported"));
    assert_eq!(ExifRotation::try_from(9u32), Err("only values 1 to 8 are supported"));
}

#[test]
fn apply_upright_returns_the_buffer_unchanged() {
    let before = sample_buffer();
    let after = ExifRotation::Upright.apply(sample_buffer());
    assert_eq!(after.width(), before.width());
    assert_eq!(after.height(), before.height());
    assert_eq!(after.samples(), before.samples());
}

#[test]
fn apply_rotated180_twice_gives_the_picture_back() {
    let once = ExifRotation::Rotated180.apply(sample_buffer());
    assert_ne!(once.samples(), sample_buffer().samples());
    let twice = ExifRotation::Rotated180.apply(once);
    assert_eq!(twice.samples(), sample_buffer().samples());
    assert_eq!((twice.width(), twice.height()), (3, 2));
}

#[test]
fn apply_flipped_horizontal_twice_gives_the_picture_back() {
    let once = ExifRotation::FlippedHorizontal.apply(sample_buffer());
    assert_ne!(once.samples(), sample_buffer().samples());
    let twice = ExifRotation::FlippedHorizontal.apply(once);
    assert_eq!(twice.samples(), sample_buffer().samples());
}

#[test]
fn apply_moves_pixels_as_the_image_operations_do() {
    let source = as_image(&sample_buffer());
    assert_same(&ExifRotation::Upright.apply(sample_buffer()), &source);
    assert_same(
        &ExifRotation::FlippedHorizontal.apply(sample_buffer()),
        &flip_horizontal(&source),
    );
    assert_same(&ExifRotation::Rotated180.apply(sample_buffer()), &rotate180(&source));
    assert_same(&ExifRotation::FlippedVertical.apply(sample_buffer()), &flip_vertical(&source));
    assert_same(
        &ExifRotation::Rotated90CWFlippedHorizontal.apply(sample_buffer()),
        &rotate90(&flip_horizontal(&source)),
    );
    assert_same(&ExifRotation::Rotated90CCW.apply(sample_buffer()), &rotate270(&source));
    assert_same(
        &ExifRotation::Rotated90CCWFlippedHorizontal.apply(sample_buffer()),
        &rotate270(&flip_horizontal(&source)),
    );
    assert_same(&ExifRotation::Rotated90CW.apply(sample_buffer()), &rotate90(&source));
}

#[test]
fn primitives_move_pixels_as_the_image_operations_do() {
    let buffer = sample_buffer();
    let source = as_image(&buffer);
    assert_same(&buffer.transformed(Primitive::FlipHorizontal), &flip_horizontal(&source));
    assert_same(&buffer.transformed(Primitive::FlipVertical), &flip_vertical(&source));
    assert_same(&buffer.transformed(Primitive::Rotate90), &rotate90(&source));
    assert_same(&buffer.transformed(Primitive::Rotate180), &rotate180(&source));
    assert_same(&buffer.transformed(Primitive::Rotate270), &rotate270(&source));
}

#[test]
fn rotate90_puts_the_top_left_pixel_top_right() {
    let turned = sample_buffer().transformed(Primitive::Rotate90);
    assert_eq!((turned.width(), turned.height()), (2, 3));
    assert_eq!(turned.get_pixel(1, 0), Some([0, 1, 2, 3]));
    assert_eq!(turned.get_pixel(0, 0), Some([12, 13, 14, 15]));
    assert_eq!(turned.get_pixel(2, 0), None);
}

#[test]
fn code_6_turns_counterclockwise() {
    let source = PixelBuffer::from_raw(2, 1, vec![1, 0, 0, 255, 2, 0, 0, 255]).unwrap();
    let upright = ExifRotation::Rotated90CCW.apply(source);
    assert_eq!((upright.width(), upright.height()), (1, 2));
    assert_eq!(upright.into_raw(), vec![2, 0, 0, 255, 1, 0, 0, 255]);
    let source = sample_buffer();
    let upright = ExifRotation::Rotated90CCW.apply(sample_buffer());
    assert_eq!((upright.width(), upright.height()), (2, 3));
    for x in 0..2 {
        for y in 0..3 {
            assert_eq!(upright.get_pixel(x, y), source.get_pixel(2 - y, x));
        }
    }
}

#[test]
fn code_8_turns_clockwise() {
    let source = PixelBuffer::from_raw(2, 1, vec![1, 0, 0, 255, 2, 0, 0, 255]).unwrap();
    let upright = ExifRotation::Rotated90CW.apply(source);
    assert_eq!((upright.width(), upright.height()), (1, 2));
    assert_eq!(upright.into_raw(), vec![1, 0, 0, 255, 2, 0, 0, 255]);
    let source = sample_buffer();
    let upright = ExifRotation::Rotated90CW.apply(sample_buffer());
    assert_eq!((upright.width(), upright.height()), (2, 3));
    for x in 0..2 {
        for y in 0..3 {
            assert_eq!(upright.get_pixel(x, y), source.get_pixel(y, 1 - x));
        }
    }
}

#[test]
fn codes_5_and_7_mirror_and_then_turn_as_codes_8_and_6() {
    let mirrored = || ExifRotation::FlippedHorizontal.apply(sample_buffer());
    let five = ExifRotation::Rotated90CWFlippedHorizontal.apply(sample_buffer());
    assert_eq!(five.samples(), ExifRotation::Rotated90CW.apply(mirrored()).samples());
    let seven = ExifRotation::Rotated90CCWFlippedHorizontal.apply(sample_buffer());
    assert_eq!(seven.samples(), ExifRotation::Rotated90CCW.apply(mirrored()).samples());
    assert_eq!((five.width(), five.height()), (2, 3));
    assert_eq!((seven.width(), seven.height()), (2, 3));
    let source = sample_buffer();
    for x in 0..2 {
        for y in 0..3 {
            assert_eq!(five.get_pixel(x, y), source.get_pixel(2 - y, 1 - x));
            assert_eq!(seven.get_pixel(x, y), source.get_pixel(y, x));
        }
    }
}

#[test]
fn quarter_turns_exchange_width_and_height() {
    let wide = PixelBuffer::from_raw(1000, 600, vec![0u8; 4 * 1000 * 600]).unwrap();
    let upright = ExifRotation::Rotated90CCW.apply(wide);
    assert_eq!((upright.width(), upright.height()), (600, 1000));
}

#[test]
fn from_raw_wants_exactly_the_samples_of_the_grid() {
    assert!(PixelBuffer::from_raw(3, 2, vec![0u8; 24]).is_some());
    assert!(PixelBuffer::from_raw(3, 2, vec![0u8; 23]).is_none());
    assert!(PixelBuffer::from_raw(3, 2, vec![0u8; 25]).is_none());
    assert!(PixelBuffer::from_raw(0, 7, Vec::new()).is_some());
    assert!(PixelBuffer::from_raw(u32::MAX, u32::MAX, vec![0u8; 4]).is_none());
}

#[test]
fn read_rotation_from_exif_reads_the_orientation_field() {
    for code in 1u16..=8 {
        let rotation = ExifRotation::read_rotation_from_exif(&tiff_with_orientation(code));
        assert_eq!(rotation.to_code(), u32::from(code));
    }
}

#[test]
fn read_rotation_from_exif_recovers_from_bad_metadata() {
    assert_eq!(
        ExifRotation::read_rotation_from_exif(&tiff_with_orientation(0)),
        ExifRotation::Upright
    );
    assert_eq!(
        ExifRotation::read_rotation_from_exif(&tiff_with_orientation(9)),
        ExifRotation::Upright
    );
    assert_eq!(ExifRotation::read_rotation_from_exif(b"no picture at all"), ExifRotation::Upright);
    assert_eq!(ExifRotation::read_rotation_from_exif(&[]), ExifRotation::Upright);
    let truncated = &tiff_with_orientation(6)[..12];
    assert_eq!(ExifRotation::read_rotation_from_exif(truncated), ExifRotation::Upright);
}

#[test]
fn read_rotation_from_exif_reads_the_block_inside_a_picture() {
    let file = png_with_metadata(&sample_buffer(), Some(tiff_with_orientation(3)));
    assert_eq!(ExifRotation::read_rotation_from_exif(&file), ExifRotation::Rotated180);
    let bare = png_with_metadata(&sample_buffer(), None);
    assert_eq!(ExifRotation::read_rotation_from_exif(&bare), ExifRotation::Upright);
}

#[test]
fn fix_rotation_brings_the_picture_upright() {
    let file = png_with_metadata(&sample_buffer(), Some(tiff_with_orientation(6)));
    let upright = fix_rotation("a.png", &file).unwrap();
    let expected = rotate270(&as_image(&sample_buffer()));
    assert_same(&upright, &expected);
    let source = sample_buffer();
    for x in 0..2 {
        for y in 0..3 {
            assert_eq!(upright.get_pixel(x, y), source.get_pixel(2 - y, x));
        }
    }
    let file = png_with_metadata(&sample_buffer(), Some(tiff_with_orientation(8)));
    let upright = fix_rotation("a.png", &file).unwrap();
    assert_same(&upright, &rotate90(&as_image(&sample_buffer())));
}

#[test]
fn fix_rotation_keeps_a_picture_without_readable_metadata() {
    let bare = png_with_metadata(&sample_buffer(), None);
    let upright = fix_rotation("a.png", &bare).unwrap();
    assert_same(&upright, &as_image(&sample_buffer()));
    let broken = png_with_metadata(&sample_buffer(), Some(vec![1, 2, 3]));
    let upright = fix_rotation("a.png", &broken).unwrap();
    assert_same(&upright, &as_image(&sample_buffer()));
}

#[test]
fn fix_rotation_gives_nothing_for_what_does_not_decode() {
    assert!(fix_rotation("a.png", b"not a picture").is_none());
    let file = png_with_metadata(&sample_buffer(), None);
    assert!(fix_rotation("a.jpg", &file).is_none());
    assert!(fix_rotation("a", &file).is_none());
}

#[test]
fn read_orientation_tag_hands_the_raw_value_out() {
    assert_eq!(ExifRotation::read_orientation_tag(&tiff_with_orientation(6)), Some(6));
    assert_eq!(ExifRotation::read_orientation_tag(&tiff_with_orientation(9)), Some(9));
    assert_eq!(ExifRotation::read_orientation_tag(&tiff_with_orientation(0)), Some(0));
    assert_eq!(ExifRotation::read_orientation_tag(b"nothing"), None);
}

#[test]
fn upright_is_assumed_for_tags_outside_the_table() {
    assert!(ExifRotation::assumes_upright(None));
    assert!(ExifRotation::assumes_upright(Some(0)));
    assert!(ExifRotation::assumes_upright(Some(9)));
    for code in 1u32..=8 {
        assert!(!ExifRotation::assumes_upright(Some(code)));
    }
}
