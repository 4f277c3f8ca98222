use photoscope::commit::{merge_metadata, resolve_collision_free, CommitError};
use photoscope::file_manager::{FileManager, SetupError};
use photoscope::image_analyzer::{calculate_file_hash, AnalysisError};

fn fm() -> FileManager {
    FileManager::new("root1".to_string(), "root2".to_string())
}

fn names(v: &[&str]) -> Vec<String> {
    v.iter().map(|s| s.to_string()).collect()
}

#[test]
fn free_name_is_kept() {
    let r = resolve_collision_free(&"photo.jpg".to_string(), &names(&[]));
    assert_eq!(r, "photo.jpg");
    let r = resolve_collision_free(&"photo.jpg".to_string(), &names(&["other.jpg"]));
    assert_eq!(r, "photo.jpg");
}

#[test]
fn second_commit_takes_suffix_one() {
    // Back-to-back commits of the same target name: the first keeps the
    // name, the second gets `_1`, two distinct destinations.
    let first = resolve_collision_free(&"photo.jpg".to_string(), &names(&[]));
    assert_eq!(first, "photo.jpg");
    let second = resolve_collision_free(&"photo.jpg".to_string(), &names(&[&first]));
    assert_eq!(second, "photo_1.jpg");
    assert_ne!(first, second);
}

#[test]
fn suffix_counts_past_taken_alternatives() {
    let existing = names(&["photo.jpg", "photo_1.jpg", "photo_2.jpg"]);
    let r = resolve_collision_free(&"photo.jpg".to_string(), &existing);
    assert_eq!(r, "photo_3.jpg");
}

#[test]
fn suffix_without_extension_goes_at_the_end() {
    let r = resolve_collision_free(&"photo".to_string(), &names(&["photo"]));
    assert_eq!(r, "photo_1");
}

#[test]
fn plan_commit_resolves_under_output_folder() {
    let m = fm();
    let dest = m
        .plan_commit(&"root1/sub/cat.jpg".to_string(), &names(&[]))
        .unwrap();
    assert_eq!(dest, "output/cat.jpg");
    let dest = m
        .plan_commit(&"root1/sub/cat.jpg".to_string(), &names(&["cat.jpg"]))
        .unwrap();
    assert_eq!(dest, "output/cat_1.jpg");
}

#[test]
fn plan_commit_rejects_a_path_without_file_name() {
    let m = fm();
    let e = m.plan_commit(&"root1/sub/".to_string(), &names(&[])).unwrap_err();
    assert!(matches!(&e, CommitError::MissingFileName { path } if path.as_str() == "root1/sub/"));
    assert_eq!(e.describe(), "no file name in path: root1/sub/");
}

#[test]
fn copy_failure_report_names_the_destination() {
    let e = CommitError::CopyFailed { path: "output/cat.jpg".to_string() };
    assert_eq!(e.describe(), "failed to copy to output/cat.jpg");
}

#[test]
fn error_reports_name_the_offending_path() {
    let e = SetupError::MissingRoot { path: "gone".to_string() };
    assert_eq!(e.describe(), "folder does not exist: gone");
    let e = SetupError::OutputNotWritable { path: "output".to_string() };
    assert_eq!(e.describe(), "failed to create output directory output");
    let e = AnalysisError::Unreadable { path: "root1/cat.jpg".to_string() };
    assert_eq!(e.describe(), "failed to read root1/cat.jpg");
    let e = AnalysisError::Undecodable { path: "root1/cat.jpg".to_string() };
    assert_eq!(e.describe(), "failed to decode image root1/cat.jpg");
}

fn kv(k: &str, v: &str) -> (String, String) {
    (k.to_string(), v.to_string())
}

#[test]
fn merge_lets_donor_tags_win_per_key() {
    let dest = vec![kv("Make", "Acme"), kv("Orientation", "1"), kv("ISO", "100")];
    let donor = vec![kv("Make", "Zenith"), kv("DateTimeOriginal", "2020")];
    let merged = merge_metadata(&dest, &donor);
    assert_eq!(
        merged,
        vec![
            kv("Orientation", "1"),
            kv("ISO", "100"),
            kv("Make", "Zenith"),
            kv("DateTimeOriginal", "2020"),
        ]
    );
}

#[test]
fn merge_with_empty_donor_keeps_destination() {
    let dest = vec![kv("Make", "Acme")];
    let merged = merge_metadata(&dest, &vec![]);
    assert_eq!(merged, vec![kv("Make", "Acme")]);
}

#[test]
fn hashing_is_deterministic_and_sensitive() {
    // The SHA-256 of "abc", hex-encoded: a known answer, so a digest
    // function that echoed its input would fail here.
    let abc = b"abc".to_vec();
    let h1 = calculate_file_hash(&abc);
    assert_eq!(h1, "ba7816bf8f01cfea414140de5dae2223b00361a396177a9cb410ff61f20015ad");
    assert_eq!(h1.len(), 64);

    // Same unmodified content twice: identical digests.
    let h2 = calculate_file_hash(&abc);
    assert_eq!(h1, h2);

    // One altered byte: a different digest.
    let abd = b"abd".to_vec();
    assert_ne!(calculate_file_hash(&abd), h1);

    let empty: Vec<u8> = Vec::new();
    assert_eq!(
        calculate_file_hash(&empty),
        "e3b0c44298fc1c149afbf4c8996fb92427ae41e4649b934ca495991b7852b855"
    );
}
