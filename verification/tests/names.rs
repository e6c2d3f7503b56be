use image_derivatives::names::{classify, is_supported_extension, Classification, ClassifierConfig};
use image_derivatives::scaling::quality_presets;

fn config() -> ClassifierConfig {
    ClassifierConfig { widths: quality_presets(), reserved: vec!["output".to_string()] }
}

#[test]
fn a_plain_photo_is_a_source_candidate() {
    assert_eq!(classify("photo.jpg", false, &config()), Classification::SourceCandidate);
}

#[test]
fn a_file_with_a_width_suffix_is_ignored() {
    assert_eq!(classify("photo-400.jpg", false, &config()), Classification::Ignore);
    assert_eq!(classify("photo-20.png", false, &config()), Classification::Ignore);
    assert_eq!(classify("photo-1200.webp", false, &config()), Classification::Ignore);
}

#[test]
fn a_directory_named_as_a_width_is_ignored() {
    assert_eq!(classify("800", true, &config()), Classification::Ignore);
    assert_eq!(classify("20", true, &config()), Classification::Ignore);
    assert_eq!(classify("1200", true, &config()), Classification::Ignore);
}

#[test]
fn a_reserved_directory_is_ignored() {
    assert_eq!(classify("output", true, &config()), Classification::Ignore);
    assert_eq!(classify("Output", true, &config()), Classification::Directory);
}

#[test]
fn other_directories_are_walked_into() {
    assert_eq!(classify("holiday", true, &config()), Classification::Directory);
    assert_eq!(classify("0800", true, &config()), Classification::Directory);
    assert_eq!(classify("801", true, &config()), Classification::Directory);
    assert_eq!(classify("8000", true, &config()), Classification::Directory);
    assert_eq!(classify("photo.jpg", true, &config()), Classification::Directory);
    assert_eq!(classify("", true, &config()), Classification::Directory);
}

#[test]
fn the_widths_to_pass_over_come_from_the_configuration() {
    let narrow = ClassifierConfig { widths: vec![7], reserved: Vec::new() };
    assert_eq!(classify("7", true, &narrow), Classification::Ignore);
    assert_eq!(classify("800", true, &narrow), Classification::Directory);
    assert_eq!(classify("output", true, &narrow), Classification::Directory);
    let zero = ClassifierConfig { widths: vec![0, 4294967295], reserved: Vec::new() };
    assert_eq!(classify("0", true, &zero), Classification::Ignore);
    assert_eq!(classify("4294967295", true, &zero), Classification::Ignore);
    assert_eq!(classify("00", true, &zero), Classification::Directory);
}

#[test]
fn a_photo_named_for_a_year_is_taken_for_a_derivative() {
    assert_eq!(classify("event-2024.jpg", false, &config()), Classification::Ignore);
}

#[test]
fn the_suffix_has_two_to_four_digits() {
    assert_eq!(classify("photo-4.jpg", false, &config()), Classification::SourceCandidate);
    assert_eq!(classify("photo-40.jpg", false, &config()), Classification::Ignore);
    assert_eq!(classify("photo-4000.jpg", false, &config()), Classification::Ignore);
    assert_eq!(classify("photo-40000.jpg", false, &config()), Classification::SourceCandidate);
    assert_eq!(classify("photo_400.jpg", false, &config()), Classification::SourceCandidate);
    assert_eq!(classify("photo-4a0.jpg", false, &config()), Classification::SourceCandidate);
    assert_eq!(classify("photo-400-x.jpg", false, &config()), Classification::SourceCandidate);
}

#[test]
fn the_stem_is_trimmed_before_the_suffix_is_looked_for() {
    assert_eq!(classify("photo-400_.jpg", false, &config()), Classification::Ignore);
    assert_eq!(classify("(photo-400).jpg", false, &config()), Classification::Ignore);
    assert_eq!(classify("-400.jpg", false, &config()), Classification::SourceCandidate);
    assert_eq!(classify("x-400.jpg", false, &config()), Classification::Ignore);
}

#[test]
fn files_of_other_kinds_are_ignored() {
    assert_eq!(classify("notes.txt", false, &config()), Classification::Ignore);
    assert_eq!(classify("photo.avif", false, &config()), Classification::Ignore);
    assert_eq!(classify("photo", false, &config()), Classification::Ignore);
    assert_eq!(classify("jpg", false, &config()), Classification::Ignore);
    assert_eq!(classify(".jpg", false, &config()), Classification::Ignore);
    assert_eq!(classify("photo.", false, &config()), Classification::Ignore);
    assert_eq!(classify("photo.jpg.txt", false, &config()), Classification::Ignore);
    assert_eq!(classify("", false, &config()), Classification::Ignore);
}

#[test]
fn the_extension_is_matched_in_any_case() {
    assert_eq!(classify("PHOTO.JPG", false, &config()), Classification::SourceCandidate);
    assert_eq!(classify("photo.JpEg", false, &config()), Classification::SourceCandidate);
    assert_eq!(classify("photo.tar.png", false, &config()), Classification::SourceCandidate);
    assert_eq!(classify("photo.gif", false, &config()), Classification::SourceCandidate);
    assert_eq!(classify("photo.WEBP", false, &config()), Classification::SourceCandidate);
    assert_eq!(classify("800", false, &config()), Classification::Ignore);
    assert_eq!(classify("fotografía.jpg", false, &config()), Classification::SourceCandidate);
}

#[test]
fn supported_extensions_are_the_five_formats() {
    assert!(is_supported_extension("jpg"));
    assert!(is_supported_extension("jpeg"));
    assert!(is_supported_extension("png"));
    assert!(is_supported_extension("gif"));
    assert!(is_supported_extension("webp"));
    assert!(is_supported_extension("JPG"));
    assert!(is_supported_extension("Png"));
    assert!(!is_supported_extension("avif"));
    assert!(!is_supported_extension("jp"));
    assert!(!is_supported_extension("jpgx"));
    assert!(!is_supported_extension(".jpg"));
    assert!(!is_supported_extension(""));
    assert!(!is_supported_extension("tiff"));
    assert!(!is_supported_extension("ＪＰＧ"));
}
