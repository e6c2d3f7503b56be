use image::ImageEncoder;
use image_derivatives::archive::{archive_entries, WalkEntry};
use image_derivatives::codec::read_image_to_buffer;
use image_derivatives::generator::{AssetError, Generator, Outcome, Stage, Task};
use image_derivatives::scaling::quality_presets;
use std::collections::BTreeMap;

/// How a run went: how it ended, how many files it stored and probed.
struct Run {
    last: Task,
    read: Vec<String>,
    stored: Vec<String>,
    probed: Vec<String>,
    stages: Vec<Stage>,
}

/// Carries the work on one image out on a tree of files held in memory.
fn run(
    tree: &mut BTreeMap<String, Vec<u8>>,
    asset: &str,
    widths: Vec<u32>,
    refuse_store_at: Option<&str>,
) -> Run {
    let (mut generator, mut task) = Generator::new("in", asset, widths, "out");
    let mut result = Run {
        last: Task::Proceed(false),
        read: Vec::new(),
        stored: Vec::new(),
        probed: Vec::new(),
        stages: Vec::new(),
    };
    loop {
        result.stages.push(generator.stage());
        let outcome = match task {
            Task::Read(path) => {
                result.read.push(path.clone());
                Outcome::Contents(tree.get(&path).cloned())
            }
            Task::Proceed(_) => Outcome::Resumed,
            Task::Probe(path) => {
                result.probed.push(path.clone());
                Outcome::Exists(tree.contains_key(&path))
            }
            Task::Store(path, bytes) => {
                if refuse_store_at == Some(path.as_str()) {
                    Outcome::Stored(false)
                } else {
                    result.stored.push(path.clone());
                    tree.insert(path, bytes);
                    Outcome::Stored(true)
                }
            }
            last => {
                result.last = last;
                return result;
            }
        };
        let next = generator.advance(outcome);
        generator = next.0;
        task = next.1;
    }
}

/// A block of metadata that holds one orientation field.
fn tiff_with_orientation(value: u16) -> Vec<u8> {
    let mut bytes = vec![b'M', b'M', 0x00, 0x2a, 0x00, 0x00, 0x00, 0x08];
    bytes.extend_from_slice(&[0x00, 0x01]);
    bytes.extend_from_slice(&[0x01, 0x12, 0x00, 0x03, 0x00, 0x00, 0x00, 0x01]);
    bytes.extend_from_slice(&value.to_be_bytes());
    bytes.extend_from_slice(&[0x00, 0x00]);
    bytes.extend_from_slice(&[0x00, 0x00, 0x00, 0x00]);
    bytes
}

/// A JPEG file of a grey picture of the given size, with the given metadata.
fn jpeg(width: u32, height: u32, metadata: Option<Vec<u8>>) -> Vec<u8> {
    let samples = vec![120u8; (3 * width * height) as usize];
    let mut out = Vec::new();
    let mut encoder = image::codecs::jpeg::JpegEncoder::new(&mut out);
    if let Some(block) = metadata {
        encoder.set_exif_metadata(block).unwrap();
    }
    encoder.write_image(&samples, width, height, image::ExtendedColorType::Rgb8).unwrap();
    out
}

/// A PNG file whose left half is black and whose right half is white.
fn png_left_black(width: u32, height: u32, metadata: Option<Vec<u8>>) -> Vec<u8> {
    let mut samples = Vec::new();
    for _ in 0..height {
        for x in 0..width {
            let shade = if x < width / 2 { 0 } else { 255 };
            samples.extend_from_slice(&[shade, shade, shade, 255]);
        }
    }
    let mut out = Vec::new();
    let mut encoder = image::codecs::png::PngEncoder::new(&mut out);
    if let Some(block) = metadata {
        encoder.set_exif_metadata(block).unwrap();
    }
    encoder.write_image(&samples, width, height, image::ExtendedColorType::Rgba8).unwrap();
    out
}

fn size_of(tree: &BTreeMap<String, Vec<u8>>, path: &str) -> (u32, u32) {
    let picture = read_image_to_buffer(path, &tree[path]).unwrap();
    (picture.width(), picture.height())
}

fn paths_of(tree: &BTreeMap<String, Vec<u8>>) -> Vec<String> {
    tree.keys().cloned().collect()
}

#[test]
fn a_turned_photo_gets_an_upright_copy_and_a_variant_of_each_width() {
    let mut tree = BTreeMap::new();
    tree.insert("in/a.jpg".to_string(), jpeg(1000, 600, Some(tiff_with_orientation(6))));
    tree.insert("in/notes.txt".to_string(), b"remember the milk".to_vec());
    let result = run(&mut tree, "a.jpg", quality_presets(), None);
    match &result.last {
        Task::Done(variants) => {
            let widths: Vec<u32> = variants.iter().map(|variant| variant.width).collect();
            assert_eq!(widths, vec![20, 200, 400, 600, 800, 1000, 1200]);
            assert_eq!(variants[2].path, "out/400/a.jpg");
        }
        other => panic!("the work ended with {:?}", other),
    }
    assert_eq!(
        paths_of(&tree),
        vec![
            "in/a.jpg",
            "in/notes.txt",
            "out/1000/a.jpg",
            "out/1200/a.jpg",
            "out/20/a.jpg",
            "out/200/a.jpg",
            "out/400/a.jpg",
            "out/600/a.jpg",
            "out/800/a.jpg",
            "out/a.jpg",
        ]
    );
    assert_eq!(size_of(&tree, "out/a.jpg"), (600, 1000));
    assert_eq!(size_of(&tree, "out/20/a.jpg"), (20, 33));
    assert_eq!(size_of(&tree, "out/200/a.jpg"), (200, 333));
    assert_eq!(size_of(&tree, "out/400/a.jpg"), (400, 667));
    assert_eq!(size_of(&tree, "out/600/a.jpg"), (600, 1000));
    assert_eq!(size_of(&tree, "out/800/a.jpg"), (800, 1333));
    assert_eq!(size_of(&tree, "out/1000/a.jpg"), (1000, 1667));
    assert_eq!(size_of(&tree, "out/1200/a.jpg"), (1200, 2000));
    assert_eq!(tree["in/notes.txt"], b"remember the milk".to_vec());
    assert_eq!(result.stored.len(), 8);
}

#[test]
fn a_second_run_stores_nothing() {
    let mut tree = BTreeMap::new();
    tree.insert("in/a.png".to_string(), png_left_black(40, 20, Some(tiff_with_orientation(8))));
    let first = run(&mut tree, "a.png", vec![20, 10], None);
    assert!(matches!(first.last, Task::Done(_)));
    assert_eq!(first.stored, vec!["out/a.png", "out/20/a.png", "out/10/a.png"]);
    let after_first = tree.clone();
    let second = run(&mut tree, "a.png", vec![20, 10], None);
    assert!(matches!(second.last, Task::Done(_)));
    assert!(second.stored.is_empty());
    assert_eq!(second.probed, first.probed);
    assert_eq!(tree, after_first);
}

#[test]
fn a_run_makes_only_what_is_missing() {
    let mut tree = BTreeMap::new();
    tree.insert("in/a.png".to_string(), png_left_black(40, 20, None));
    tree.insert("out/20/a.png".to_string(), b"made earlier".to_vec());
    let result = run(&mut tree, "a.png", vec![30, 20, 10], None);
    assert!(matches!(result.last, Task::Done(_)));
    assert_eq!(result.stored, vec!["out/a.png", "out/30/a.png", "out/10/a.png"]);
    assert_eq!(tree["out/20/a.png"], b"made earlier".to_vec());
}

#[test]
fn a_source_without_readable_metadata_gets_an_upright_copy() {
    let mut tree = BTreeMap::new();
    tree.insert("in/a.png".to_string(), png_left_black(4, 2, Some(vec![9, 9, 9])));
    let result = run(&mut tree, "a.png", Vec::new(), None);
    assert!(matches!(result.last, Task::Done(ref variants) if variants.is_empty()));
    assert_eq!(result.stored, vec!["out/a.png"]);
    let copy = read_image_to_buffer("out/a.png", &tree["out/a.png"]).unwrap();
    let source = read_image_to_buffer("in/a.png", &tree["in/a.png"]).unwrap();
    assert_eq!((copy.width(), copy.height()), (4, 2));
    assert_eq!(copy.samples(), source.samples());
}

#[test]
fn the_copy_is_turned_as_the_metadata_says() {
    let mut tree = BTreeMap::new();
    tree.insert("in/a.png".to_string(), png_left_black(4, 2, Some(tiff_with_orientation(6))));
    run(&mut tree, "a.png", Vec::new(), None);
    let copy = read_image_to_buffer("out/a.png", &tree["out/a.png"]).unwrap();
    assert_eq!((copy.width(), copy.height()), (2, 4));
    assert_eq!(copy.get_pixel(0, 0), Some([255, 255, 255, 255]));
    assert_eq!(copy.get_pixel(1, 1), Some([255, 255, 255, 255]));
    assert_eq!(copy.get_pixel(0, 2), Some([0, 0, 0, 255]));
    assert_eq!(copy.get_pixel(1, 3), Some([0, 0, 0, 255]));
}

#[test]
fn variants_are_scaled_from_the_upright_picture() {
    let mut tree = BTreeMap::new();
    tree.insert("in/sub/a.png".to_string(), png_left_black(40, 20, Some(tiff_with_orientation(6))));
    let result = run(&mut tree, "sub/a.png", vec![10], None);
    assert!(matches!(result.last, Task::Done(_)));
    assert_eq!(size_of(&tree, "out/sub/a.png"), (20, 40));
    assert_eq!(size_of(&tree, "out/10/sub/a.png"), (10, 20));
    let variant = read_image_to_buffer("a.png", &tree["out/10/sub/a.png"]).unwrap();
    assert_eq!(variant.get_pixel(5, 0), Some([255, 255, 255, 255]));
    assert_eq!(variant.get_pixel(5, 19), Some([0, 0, 0, 255]));
}

#[test]
fn the_stages_follow_each_other() {
    let mut tree = BTreeMap::new();
    tree.insert("in/a.png".to_string(), png_left_black(4, 2, None));
    let result = run(&mut tree, "a.png", vec![2, 1], None);
    assert_eq!(
        result.stages,
        vec![
            Stage::Discovered,
            Stage::Decoded,
            Stage::OrientationCorrected,
            Stage::OrientationCorrected,
            Stage::OrientationCorrected,
            Stage::OrientationCorrected,
            Stage::WidthVariantPersisted,
            Stage::WidthVariantPersisted,
            Stage::Complete,
        ]
    );
}

#[test]
fn a_missing_source_is_unreadable() {
    let mut tree = BTreeMap::new();
    let result = run(&mut tree, "a.png", vec![20], None);
    assert!(matches!(result.last, Task::Abandon(AssetError::Unreadable)));
    assert!(tree.is_empty());
    assert_eq!(result.stages, vec![Stage::Discovered, Stage::Failed]);
}

#[test]
fn a_source_that_is_no_picture_is_undecodable() {
    let mut tree = BTreeMap::new();
    tree.insert("in/a.png".to_string(), b"no picture".to_vec());
    let result = run(&mut tree, "a.png", vec![20], None);
    assert!(matches!(result.last, Task::Abandon(AssetError::Undecodable)));
    assert!(result.stored.is_empty());
    assert!(result.probed.is_empty());
}

#[test]
fn a_failed_store_gives_the_work_up() {
    let mut tree = BTreeMap::new();
    tree.insert("in/a.png".to_string(), png_left_black(4, 2, None));
    let result = run(&mut tree, "a.png", vec![2, 1], Some("out/2/a.png"));
    assert!(matches!(result.last, Task::Abandon(AssetError::StoreFailed)));
    assert_eq!(result.stored, vec!["out/a.png"]);
    assert_eq!(paths_of(&tree), vec!["in/a.png", "out/a.png"]);
    let resumed = run(&mut tree, "a.png", vec![2, 1], None);
    assert!(matches!(resumed.last, Task::Done(_)));
    assert_eq!(resumed.stored, vec!["out/2/a.png", "out/1/a.png"]);
}

#[test]
fn a_variant_too_large_to_resample_gives_the_work_up() {
    let mut tree = BTreeMap::new();
    tree.insert("in/a.png".to_string(), png_left_black(2, 2, None));
    let result = run(&mut tree, "a.png", vec![2, 70000], None);
    assert!(matches!(result.last, Task::Abandon(AssetError::TooLarge)));
    assert_eq!(result.stored, vec!["out/a.png", "out/2/a.png"]);
}

#[test]
fn a_picture_that_the_encoder_refuses_gives_the_work_up() {
    let mut tree = BTreeMap::new();
    tree.insert("in/a.jpg".to_string(), jpeg(300, 1, None));
    let result = run(&mut tree, "a.jpg", vec![20], None);
    assert!(matches!(result.last, Task::Abandon(AssetError::EncoderRejected)));
    assert_eq!(result.stored, vec!["out/a.jpg"]);
}

#[test]
fn an_outcome_that_was_not_asked_for_gives_the_work_up() {
    let (generator, task) = Generator::new("in", "a.png", vec![20], "out");
    assert!(matches!(task, Task::Read(ref path) if path == "in/a.png"));
    let (generator, task) = generator.advance(Outcome::Exists(true));
    assert!(matches!(task, Task::Abandon(AssetError::UnexpectedOutcome)));
    assert_eq!(generator.stage(), Stage::Failed);
    let (generator, task) = generator.advance(Outcome::Contents(Some(png_left_black(4, 2, None))));
    assert!(matches!(task, Task::Abandon(AssetError::UnexpectedOutcome)));
    assert_eq!(generator.stage(), Stage::Failed);
}

#[test]
fn finished_work_stays_finished() {
    let (generator, _) = Generator::new("", "a.png", Vec::new(), "");
    let (generator, task) = generator.advance(Outcome::Contents(Some(png_left_black(4, 2, None))));
    assert!(matches!(task, Task::Proceed(true)));
    let (generator, task) = generator.advance(Outcome::Resumed);
    assert!(matches!(task, Task::Probe(ref path) if path == "a.png"));
    let (generator, task) = generator.advance(Outcome::Exists(true));
    assert!(matches!(task, Task::Done(ref variants) if variants.is_empty()));
    let (generator, task) = generator.advance(Outcome::Stored(false));
    assert!(matches!(task, Task::Done(_)));
    assert_eq!(generator.stage(), Stage::Complete);
}

#[test]
fn the_machine_says_when_it_assumes_the_orientation() {
    let (generator, _) = Generator::new("in", "a.png", Vec::new(), "out");
    let turned = png_left_black(4, 2, Some(tiff_with_orientation(3)));
    let (_, task) = generator.advance(Outcome::Contents(Some(turned)));
    assert!(matches!(task, Task::Proceed(false)));
    let (generator, _) = Generator::new("in", "a.png", Vec::new(), "out");
    let odd = png_left_black(4, 2, Some(tiff_with_orientation(12)));
    let (_, task) = generator.advance(Outcome::Contents(Some(odd)));
    assert!(matches!(task, Task::Proceed(true)));
}

#[test]
fn a_source_of_an_unsupported_extension_gets_no_copy() {
    let mut tree = BTreeMap::new();
    tree.insert("in/a.jfif".to_string(), jpeg(8, 8, None));
    let result = run(&mut tree, "a.jfif", vec![4], None);
    assert!(matches!(result.last, Task::Abandon(AssetError::UnsupportedExtension)));
    assert!(result.stored.is_empty());
    assert_eq!(result.probed, vec!["out/a.jfif"]);
    assert_eq!(result.stages.last(), Some(&Stage::Failed));
}

#[test]
fn a_file_beside_the_photo_is_neither_read_nor_written_nor_archived() {
    let mut tree = BTreeMap::new();
    let photo = jpeg(100, 60, Some(tiff_with_orientation(6)));
    tree.insert("in/a.jpg".to_string(), photo.clone());
    tree.insert("in/notes.txt".to_string(), b"remember the milk".to_vec());
    let result = run(&mut tree, "a.jpg", vec![20, 40], None);
    assert!(matches!(result.last, Task::Done(_)));
    assert_eq!(result.read, vec!["in/a.jpg"]);
    assert_eq!(result.stored, vec!["out/a.jpg", "out/20/a.jpg", "out/40/a.jpg"]);
    assert_eq!(tree["in/notes.txt"], b"remember the milk".to_vec());
    assert_eq!(tree["in/a.jpg"], photo);
    assert!(tree.keys().all(|path| !path.starts_with("out") || path.ends_with("/a.jpg")));
    let mut walked = vec![WalkEntry { path: "out".to_string(), is_file: false }];
    for directory in ["out/20", "out/40"] {
        walked.push(WalkEntry { path: directory.to_string(), is_file: false });
    }
    for path in tree.keys().filter(|path| path.starts_with("out/")) {
        walked.push(WalkEntry { path: path.clone(), is_file: true });
    }
    let entries = archive_entries("out", &walked).unwrap();
    let names: Vec<&str> = entries.iter().map(|entry| entry.name.as_str()).collect();
    assert_eq!(names, vec!["20/a.jpg", "40/a.jpg", "a.jpg"]);
    assert!(entries.iter().all(|entry| result.stored.contains(&entry.path)));
}
