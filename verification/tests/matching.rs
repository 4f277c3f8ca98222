use photoscope::file_manager::{FileManager, MatchedPair};
use photoscope::text::{file_name_of, split_name, u64_decimal};

fn fm() -> FileManager {
    FileManager::new("root1".to_string(), "root2".to_string())
}

fn paths(v: &[&str]) -> Vec<String> {
    v.iter().map(|s| s.to_string()).collect()
}

fn pairs_of(fm: &FileManager, a: &[&str], b: &[&str]) -> Vec<MatchedPair> {
    fm.find_matching_files(&paths(a), &paths(b))
}

#[test]
fn extension_allow_list_is_case_insensitive() {
    assert!(FileManager::is_image_file("a/b/photo.jpg"));
    assert!(FileManager::is_image_file("photo.JPG"));
    assert!(FileManager::is_image_file("photo.JpEg"));
    assert!(FileManager::is_image_file("scan.TIFF"));
    assert!(FileManager::is_image_file("raw.CR2"));
    assert!(FileManager::is_image_file("x.dng"));
    assert!(!FileManager::is_image_file("notes.txt"));
    assert!(!FileManager::is_image_file("photo"));
    assert!(!FileManager::is_image_file(".jpg"));
    assert!(!FileManager::is_image_file("archive.jpg.bak"));
    assert!(!FileManager::is_image_file("dir.jpg/file"));
}

#[test]
fn unlisted_extensions_are_never_matched() {
    // Equal names, but .txt is not a recognized image extension.
    let r = pairs_of(&fm(), &["root1/notes.txt"], &["root2/notes.txt"]);
    assert_eq!(r.len(), 0);
}

#[test]
fn base_name_matching_is_case_sensitive() {
    let matched = pairs_of(&fm(), &["root1/Photo.jpg"], &["root2/Photo.jpg"]);
    assert_eq!(matched.len(), 1);
    assert_eq!(matched[0].path1, "root1/Photo.jpg");
    assert_eq!(matched[0].path2, "root2/Photo.jpg");

    let unmatched = pairs_of(&fm(), &["root1/Photo.jpg"], &["root2/photo.jpg"]);
    assert_eq!(unmatched.len(), 0);
}

#[test]
fn pairs_are_sorted_by_base_name() {
    let r = pairs_of(
        &fm(),
        &["root1/c.jpg", "root1/a.jpg", "root1/b.jpg"],
        &["root2/sub/b.jpg", "root2/c.jpg", "root2/a.jpg"],
    );
    assert_eq!(r.len(), 3);
    assert_eq!(r[0].path1, "root1/a.jpg");
    assert_eq!(r[0].path2, "root2/a.jpg");
    assert_eq!(r[1].path1, "root1/b.jpg");
    assert_eq!(r[1].path2, "root2/sub/b.jpg");
    assert_eq!(r[2].path1, "root1/c.jpg");
}

#[test]
fn duplicate_base_names_in_first_tree_last_indexed_wins() {
    let r = pairs_of(
        &fm(),
        &["root1/old/cat.jpg", "root1/new/cat.jpg"],
        &["root2/cat.jpg"],
    );
    assert_eq!(r.len(), 1);
    assert_eq!(r[0].path1, "root1/new/cat.jpg");
}

#[test]
fn second_tree_drives_the_pair_list() {
    // Two files of the same base name in the second tree both pair with
    // the first tree's entry.
    let r = pairs_of(&fm(), &["root1/cat.jpg"], &["root2/a/cat.jpg", "root2/b/cat.jpg"]);
    assert_eq!(r.len(), 2);
    assert_eq!(r[0].path1, "root1/cat.jpg");
    assert_eq!(r[1].path1, "root1/cat.jpg");
}

#[test]
fn relative_paths_are_labelled_by_root() {
    let m = fm();
    assert_eq!(m.get_relative_path(&"root1/sub/cat.jpg".to_string()), "Folder1/sub/cat.jpg");
    assert_eq!(m.get_relative_path(&"root2/dog.png".to_string()), "Folder2/dog.png");
    assert_eq!(m.get_relative_path(&"elsewhere/dog.png".to_string()), "elsewhere/dog.png");
    assert_eq!(m.get_relative_path(&"root1".to_string()), "Folder1/");
    // A string prefix that is not a path component prefix does not count.
    assert_eq!(m.get_relative_path(&"root1x/dog.png".to_string()), "root1x/dog.png");
}

#[test]
fn file_manager_new_uses_fixed_output_folder() {
    let m = fm();
    assert_eq!(m.folder1, "root1");
    assert_eq!(m.folder2, "root2");
    assert_eq!(m.output_folder, "output");
}

#[test]
fn base_name_and_extension_splitting() {
    assert_eq!(file_name_of("a/b/c.jpg"), "c.jpg");
    assert_eq!(file_name_of("c.jpg"), "c.jpg");
    assert_eq!(file_name_of("a/b/"), "");

    let (stem, ext) = split_name("photo.jpeg");
    assert_eq!(stem, "photo");
    assert_eq!(ext.as_deref(), Some("jpeg"));

    let (stem, ext) = split_name("archive.tar.gz");
    assert_eq!(stem, "archive.tar");
    assert_eq!(ext.as_deref(), Some("gz"));

    let (stem, ext) = split_name("README");
    assert_eq!(stem, "README");
    assert!(ext.is_none());

    let (stem, ext) = split_name(".hidden");
    assert_eq!(stem, ".hidden");
    assert!(ext.is_none());
}

#[test]
fn decimal_rendering() {
    assert_eq!(u64_decimal(0), "0");
    assert_eq!(u64_decimal(7), "7");
    assert_eq!(u64_decimal(42), "42");
    assert_eq!(u64_decimal(1000), "1000");
    assert_eq!(u64_decimal(18_446_744_073_709_551_615), "18446744073709551615");
}
