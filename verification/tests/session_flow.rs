use photoscope::commit::CommitError;
use photoscope::file_manager::{FileManager, MatchedPair};
use photoscope::image_analyzer::ImageAnalysis;
use photoscope::selector::{FolderSelectorApp, LoadingWindow};
use photoscope::session::{Action, Decision, Phase, Session, Side, TransferOutcome};

fn pair(p1: &str, p2: &str) -> MatchedPair {
    MatchedPair { path1: p1.to_string(), path2: p2.to_string() }
}

fn analysis(path: &str, bytes: u64, w: u32, h: u32, tags: usize) -> ImageAnalysis {
    let metadata: Vec<(String, String)> = (0..tags)
        .map(|i| (format!("Tag{}", i), format!("value{}", i)))
        .collect();
    ImageAnalysis::analyze_image(path.to_string(), bytes, w, h, Some(metadata), &[1, 2, 3])
}

#[test]
fn empty_session_is_done_at_once() {
    let s = Session::new(Vec::new());
    assert!(matches!(s.phase, Phase::Done));
    assert!(s.next_action().is_none());
    assert_eq!(s.final_counts(), (0, 0));
}

#[test]
fn session_prepares_the_first_pair() {
    let s = Session::new(vec![pair("r1/a.jpg", "r2/a.jpg")]);
    assert!(matches!(s.phase, Phase::Preparing));
    assert!(matches!(s.next_action(), Some(Action::Analyze { index: 0 })));
}

#[test]
fn stale_analyses_are_discarded() {
    let mut s = Session::new(vec![pair("r1/a.jpg", "r2/a.jpg"), pair("r1/b.jpg", "r2/b.jpg")]);
    // An analysis for a pair that is neither current nor next changes nothing.
    s.deliver_analyses(5, analysis("x", 1, 1, 1, 0), analysis("y", 1, 1, 1, 0));
    assert!(matches!(s.phase, Phase::Preparing));
    assert!(s.prefetch.is_none());
}

#[test]
fn skip_counts_and_moves_on() {
    let mut s = Session::new(vec![pair("r1/a.jpg", "r2/a.jpg")]);
    s.deliver_analyses(0, analysis("r1/a.jpg", 1, 1, 1, 0), analysis("r2/a.jpg", 1, 1, 1, 0));
    assert!(matches!(s.phase, Phase::Presenting { .. }));
    s.skip();
    assert!(matches!(s.phase, Phase::Done));
    assert_eq!(s.final_counts(), (0, 1));
    assert_eq!(s.errored, 0);
}

#[test]
fn metadata_transfer_marks_the_richer_side() {
    let mut s = Session::new(vec![pair("r1/a.jpg", "r2/a.jpg")]);
    s.deliver_analyses(0, analysis("r1/a.jpg", 1, 1, 1, 10), analysis("r2/a.jpg", 1, 1, 1, 3));
    // Counts (A=10, B=3): A becomes the donor.
    let r = s.request_metadata_transfer();
    assert!(matches!(r, TransferOutcome::DonorA));
    assert_eq!(s.donor.as_deref(), Some("r1/a.jpg"));
}

#[test]
fn equal_metadata_counts_clear_any_donor() {
    let mut s = Session::new(vec![pair("r1/a.jpg", "r2/a.jpg")]);
    s.deliver_analyses(0, analysis("r1/a.jpg", 1, 1, 1, 4), analysis("r2/a.jpg", 1, 1, 1, 3));
    let r = s.request_metadata_transfer();
    assert!(matches!(r, TransferOutcome::DonorA));
    assert!(s.donor.is_some());
    // Re-presenting the same pair with equal nonzero counts: no donor is
    // marked and the prior donor is cleared.
    s.deliver_analyses(0, analysis("r1/a.jpg", 1, 1, 1, 4), analysis("r2/a.jpg", 1, 1, 1, 3));
    let s_phase_presenting = matches!(s.phase, Phase::Presenting { .. });
    assert!(s_phase_presenting);
    let mut t = Session::new(vec![pair("r1/a.jpg", "r2/a.jpg")]);
    t.deliver_analyses(0, analysis("r1/a.jpg", 1, 1, 1, 4), analysis("r2/a.jpg", 1, 1, 1, 4));
    t.donor = Some("stale".to_string());
    let r = t.request_metadata_transfer();
    assert!(matches!(r, TransferOutcome::NoTransfer));
    assert!(t.donor.is_none());
}

#[test]
fn richer_second_side_marks_donor_b() {
    let mut s = Session::new(vec![pair("r1/a.jpg", "r2/a.jpg")]);
    s.deliver_analyses(0, analysis("r1/a.jpg", 1, 1, 1, 0), analysis("r2/a.jpg", 1, 1, 1, 5));
    let r = s.request_metadata_transfer();
    assert!(matches!(r, TransferOutcome::DonorB));
    assert_eq!(s.donor.as_deref(), Some("r2/a.jpg"));
}

#[test]
fn commit_flow_with_prefetch() {
    let mut s = Session::new(vec![pair("r1/a.jpg", "r2/a.jpg"), pair("r1/b.jpg", "r2/b.jpg")]);
    s.deliver_analyses(0, analysis("r1/a.jpg", 1, 1, 1, 0), analysis("r2/a.jpg", 1, 1, 1, 0));
    s.make_choice(Side::B);
    match &s.phase {
        Phase::Committing { chosen } => assert_eq!(chosen.as_str(), "r2/a.jpg"),
        _ => panic!("expected a commit to be pending"),
    }
    // The driver is told to commit and may prefetch the next pair.
    match s.next_action() {
        Some(Action::Commit { source, donor, prefetch }) => {
            assert_eq!(source, "r2/a.jpg");
            assert!(donor.is_none());
            assert_eq!(prefetch, Some(1));
        }
        _ => panic!("expected a commit action"),
    }
    // The prefetched analyses arrive while the commit still runs.
    s.deliver_analyses(1, analysis("r1/b.jpg", 1, 1, 1, 0), analysis("r2/b.jpg", 1, 1, 1, 0));
    assert!(s.prefetch.is_some());
    // The commit succeeds: the slot is consumed exactly once and the
    // next pair is presented at once.
    s.commit_finished(&Ok("output/a.jpg".to_string()));
    assert_eq!(s.selected, 1);
    assert!(s.prefetch.is_none());
    assert!(matches!(s.phase, Phase::Presenting { .. }));
    s.skip();
    assert!(matches!(s.phase, Phase::Done));
    assert_eq!(s.final_counts(), (1, 1));
}

#[test]
fn failed_commit_is_not_counted_as_selected() {
    let mut s = Session::new(vec![pair("r1/a.jpg", "r2/a.jpg")]);
    s.deliver_analyses(0, analysis("r1/a.jpg", 1, 1, 1, 0), analysis("r2/a.jpg", 1, 1, 1, 0));
    s.donor = Some("r1/a.jpg".to_string());
    s.make_choice(Side::A);
    s.commit_finished(&Err(CommitError::CopyFailed { path: "output/a.jpg".to_string() }));
    assert_eq!(s.selected, 0);
    assert_eq!(s.errored, 1);
    // The donor slot is cleared whatever the outcome.
    assert!(s.donor.is_none());
    assert!(matches!(s.phase, Phase::Done));
}

#[test]
fn failed_analysis_skips_the_pair_with_an_error() {
    let mut s = Session::new(vec![pair("r1/a.jpg", "r2/a.jpg"), pair("r1/b.jpg", "r2/b.jpg")]);
    s.analysis_failed(0);
    assert_eq!(s.errored, 1);
    assert_eq!(s.index, 1);
    assert!(matches!(s.phase, Phase::Preparing));
    assert!(matches!(s.next_action(), Some(Action::Analyze { index: 1 })));
}

#[test]
fn cancel_ends_the_session_keeping_counts() {
    let mut s = Session::new(vec![pair("r1/a.jpg", "r2/a.jpg"), pair("r1/b.jpg", "r2/b.jpg")]);
    s.deliver_analyses(0, analysis("r1/a.jpg", 1, 1, 1, 0), analysis("r2/a.jpg", 1, 1, 1, 0));
    s.skip();
    s.advance(Decision::Cancel);
    assert!(matches!(s.phase, Phase::Done));
    assert_eq!(s.final_counts(), (0, 1));
}

#[test]
fn advance_dispatches_decisions() {
    let mut s = Session::new(vec![pair("r1/a.jpg", "r2/a.jpg")]);
    s.deliver_analyses(0, analysis("r1/a.jpg", 1, 1, 1, 2), analysis("r2/a.jpg", 1, 1, 1, 0));
    let t = s.advance(Decision::RequestMetadataTransfer);
    assert!(matches!(t, Some(TransferOutcome::DonorA)));
    s.advance(Decision::ChooseA);
    assert!(matches!(s.phase, Phase::Committing { .. }));
}

#[test]
fn end_to_end_one_matching_pair() {
    // root1 holds cat.jpg (1 MP, no metadata) and dog.png; root2 holds a
    // richer cat.jpg (12 MP, 5 tags). Exactly one pair matches.
    let fm = FileManager::new("root1".to_string(), "root2".to_string());
    let paths1 = vec!["root1/cat.jpg".to_string(), "root1/dog.png".to_string()];
    let paths2 = vec!["root2/cat.jpg".to_string()];
    let pairs = fm.find_matching_files(&paths1, &paths2);
    assert_eq!(pairs.len(), 1);
    assert_eq!(pairs[0].path1, "root1/cat.jpg");
    assert_eq!(pairs[0].path2, "root2/cat.jpg");

    // The quality scorer ranks root2's file higher.
    let a1 = analysis("root1/cat.jpg", 100_000, 1000, 1000, 0);
    let a2 = analysis("root2/cat.jpg", 24_000_000, 4000, 3000, 5);
    assert!(a2.quality_score > a1.quality_score);

    // Choosing it commits into the output directory with no collision.
    let mut s = Session::new(pairs);
    s.deliver_analyses(0, a1, a2);
    s.make_choice(Side::B);
    let dest = match s.next_action() {
        Some(Action::Commit { source, .. }) => {
            fm.plan_commit(&source, &Vec::new()).unwrap()
        }
        _ => panic!("expected a commit action"),
    };
    assert_eq!(dest, "output/cat.jpg");
    s.commit_finished(&Ok(dest));
    assert!(matches!(s.phase, Phase::Done));
    assert_eq!(s.final_counts(), (1, 0));
}

#[test]
fn analysis_record_is_a_pure_function_of_its_inputs() {
    let a = analysis("root1/cat.jpg", 100_000, 1000, 500, 2);
    let b = analysis("root1/cat.jpg", 100_000, 1000, 500, 2);
    assert_eq!(a.file_path, b.file_path);
    assert_eq!(a.file_size_bytes, b.file_size_bytes);
    assert_eq!(a.width, b.width);
    assert_eq!(a.height, b.height);
    assert_eq!(a.metadata_count, b.metadata_count);
    assert_eq!(a.exif_data, b.exif_data);
    assert_eq!(a.quality_score, b.quality_score);
    assert_eq!(a.hash, b.hash);
}

#[test]
fn analysis_recovers_missing_metadata_as_empty() {
    let a = ImageAnalysis::analyze_image(
        "root1/cat.jpg".to_string(),
        100_000,
        1000,
        500,
        None,
        &[9, 9],
    );
    assert_eq!(a.metadata_count, 0);
    assert!(a.exif_data.is_empty());
    // 0.5 MP lossy jpg at 0.2 bytes/px: the floor score.
    assert_eq!(a.quality_score, 10);
    assert_eq!(a.get_quality_stars(), 1);
}

#[test]
fn important_metadata_is_filtered_and_rendered() {
    let tags = vec![
        ("DateTimeOriginal".to_string(), "2020-01-01".to_string()),
        ("Orientation".to_string(), "1".to_string()),
        ("Make".to_string(), "Acme".to_string()),
        ("ExposureTime".to_string(), "1/250".to_string()),
    ];
    let a = ImageAnalysis::analyze_image(
        "x.jpg".to_string(),
        1,
        1,
        1,
        Some(tags),
        &[0],
    );
    let important = a.get_important_metadata();
    assert_eq!(
        important,
        vec![
            "DateTimeOriginal: 2020-01-01".to_string(),
            "Make: Acme".to_string(),
            "ExposureTime: 1/250".to_string(),
        ]
    );
}

#[test]
fn folder_selector_requires_both_folders() {
    let mut app = FolderSelectorApp::new();
    assert!(!app.both_selected());
    app.confirm();
    assert!(app.selection().is_none());
    app.set_folder(1, "left".to_string());
    assert!(!app.both_selected());
    app.set_folder(2, "right".to_string());
    assert!(app.both_selected());
    assert!(app.selection().is_none());
    app.confirm();
    assert_eq!(app.selection(), Some(("left".to_string(), "right".to_string())));
}

#[test]
fn loading_window_holds_its_message() {
    let w = LoadingWindow::new("Analyzing the first pair...".to_string());
    assert_eq!(w.message().as_str(), "Analyzing the first pair...");
}
