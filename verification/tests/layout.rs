use image_derivatives::archive::{archive_entries, ArchiveError, WalkEntry};
use image_derivatives::layout::{corrected_path, entry_name, join, variant_path};

fn walked(path: &str, is_file: bool) -> WalkEntry {
    WalkEntry { path: path.to_string(), is_file }
}

#[test]
fn join_puts_a_slash_between() {
    assert_eq!(join("a", "b.jpg"), "a/b.jpg");
    assert_eq!(join("a/b", "c"), "a/b/c");
    assert_eq!(join("", "b.jpg"), "b.jpg");
    assert_eq!(join("a", ""), "a/");
    assert_eq!(join("", ""), "");
}

#[test]
fn corrected_copies_mirror_the_source_tree() {
    assert_eq!(corrected_path("output", "a.jpg"), "output/a.jpg");
    assert_eq!(corrected_path("output", "trip/day1/a.jpg"), "output/trip/day1/a.jpg");
    assert_eq!(corrected_path("", "a.jpg"), "a.jpg");
}

#[test]
fn variants_lie_below_a_directory_named_by_the_width() {
    assert_eq!(variant_path("output", 400, "a.jpg"), "output/400/a.jpg");
    assert_eq!(variant_path("output", 20, "trip/a.jpg"), "output/20/trip/a.jpg");
    assert_eq!(variant_path("output", 0, "a.jpg"), "output/0/a.jpg");
    assert_eq!(variant_path("output", 1200, "a.jpg"), "output/1200/a.jpg");
    assert_eq!(variant_path("output", 4294967295, "a.jpg"), "output/4294967295/a.jpg");
    assert_eq!(variant_path("", 1000, "a.jpg"), "1000/a.jpg");
}

#[test]
fn every_width_has_a_path_of_its_own() {
    let widths = [20u32, 200, 400, 600, 800, 1000, 1200];
    for (i, a) in widths.iter().enumerate() {
        for b in &widths[i + 1..] {
            assert_ne!(variant_path("output", *a, "a.jpg"), variant_path("output", *b, "a.jpg"));
        }
        assert_ne!(variant_path("output", *a, "a.jpg"), corrected_path("output", "a.jpg"));
    }
}

#[test]
fn entry_names_are_paths_below_the_root() {
    assert_eq!(entry_name("output", "output/a.jpg"), Some("a.jpg".to_string()));
    assert_eq!(entry_name("output", "output/400/a.jpg"), Some("400/a.jpg".to_string()));
    assert_eq!(entry_name("output/", "output/a.jpg"), Some("a.jpg".to_string()));
    assert_eq!(entry_name("output", "output"), Some(String::new()));
    assert_eq!(entry_name("", "a.jpg"), Some("a.jpg".to_string()));
    assert_eq!(entry_name("output", "output/"), Some(String::new()));
}

#[test]
fn paths_outside_the_root_have_no_entry_name() {
    assert_eq!(entry_name("output", "outputs/a.jpg"), None);
    assert_eq!(entry_name("output", "other/a.jpg"), None);
    assert_eq!(entry_name("output", "out"), None);
    assert_eq!(entry_name("output", ""), None);
    assert_eq!(entry_name("output/x", "output/y"), None);
}

#[test]
fn the_archive_holds_the_files_of_the_walk() {
    let walk = vec![
        walked("output", false),
        walked("output/400", false),
        walked("output/400/a.jpg", true),
        walked("output/a.jpg", true),
    ];
    let entries = archive_entries("output", &walk).unwrap();
    assert_eq!(entries.len(), 2);
    assert_eq!(entries[0].name, "400/a.jpg");
    assert_eq!(entries[0].path, "output/400/a.jpg");
    assert_eq!(entries[1].name, "a.jpg");
    assert_eq!(entries[1].path, "output/a.jpg");
}

#[test]
fn an_empty_walk_gives_an_empty_archive() {
    assert!(archive_entries("output", &Vec::new()).unwrap().is_empty());
    assert!(archive_entries("output", &vec![walked("output", false)]).unwrap().is_empty());
}

#[test]
fn a_path_outside_the_root_stops_the_archive() {
    let walk = vec![
        walked("output/a.jpg", true),
        walked("elsewhere", false),
        walked("nowhere/b.jpg", true),
    ];
    match archive_entries("output", &walk) {
        Err(ArchiveError::OutsideRoot(path)) => assert_eq!(path, "elsewhere"),
        Ok(_) => panic!("the walk left the root"),
    }
}
