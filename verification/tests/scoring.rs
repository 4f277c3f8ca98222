use photoscope::score::{calculate_quality_score, quality_stars};

#[test]
fn lossless_high_resolution_takes_full_score() {
    // 50 megapixels, lossless: 40 + 60 = 100, whatever the size.
    assert_eq!(calculate_quality_score(1, 10000, 5000, true, false), 100);
    assert_eq!(calculate_quality_score(123_456_789, 10000, 5000, true, false), 100);
    assert_eq!(calculate_quality_score(0, 10000, 5000, true, false), 100);
}

#[test]
fn small_dense_jpeg_takes_floor_score() {
    // 0.5 megapixels (resolution 5), JPEG under 0.3 bytes per pixel
    // (compression 5): 10 in total.
    assert_eq!(calculate_quality_score(100_000, 1000, 500, false, true), 10);
}

#[test]
fn resolution_steps() {
    // JPEG at >= 4.0 bytes/px always takes compression 60; the steps come
    // from resolution alone.
    let bytes = u64::MAX;
    assert_eq!(calculate_quality_score(bytes, 8000, 6000, false, true), 100); // 48 MP
    assert_eq!(calculate_quality_score(bytes, 6000, 4000, false, true), 95); // 24 MP
    assert_eq!(calculate_quality_score(bytes, 4000, 3000, false, true), 90); // 12 MP
    assert_eq!(calculate_quality_score(bytes, 4000, 2000, false, true), 85); // 8 MP
    assert_eq!(calculate_quality_score(bytes, 2500, 2000, false, true), 80); // 5 MP
    assert_eq!(calculate_quality_score(bytes, 2000, 1000, false, true), 75); // 2 MP
    assert_eq!(calculate_quality_score(bytes, 1000, 1000, false, true), 70); // 1 MP
    assert_eq!(calculate_quality_score(bytes, 999, 1000, false, true), 65); // < 1 MP
}

#[test]
fn compression_steps() {
    // 1 megapixel (resolution 10), JPEG: bytes per pixel decides the
    // compression term.
    let px = (1000u32, 1000u32);
    assert_eq!(calculate_quality_score(4_000_000, px.0, px.1, false, true), 70); // 4.0
    assert_eq!(calculate_quality_score(3_000_000, px.0, px.1, false, true), 65); // 3.0
    assert_eq!(calculate_quality_score(2_500_000, px.0, px.1, false, true), 60); // 2.5
    assert_eq!(calculate_quality_score(2_000_000, px.0, px.1, false, true), 55); // 2.0
    assert_eq!(calculate_quality_score(1_500_000, px.0, px.1, false, true), 50); // 1.5
    assert_eq!(calculate_quality_score(1_200_000, px.0, px.1, false, true), 45); // 1.2
    assert_eq!(calculate_quality_score(1_000_000, px.0, px.1, false, true), 40); // 1.0
    assert_eq!(calculate_quality_score(700_000, px.0, px.1, false, true), 35); // 0.7
    assert_eq!(calculate_quality_score(500_000, px.0, px.1, false, true), 30); // 0.5
    assert_eq!(calculate_quality_score(400_000, px.0, px.1, false, true), 25); // 0.4
    assert_eq!(calculate_quality_score(300_000, px.0, px.1, false, true), 20); // 0.3
    assert_eq!(calculate_quality_score(299_999, px.0, px.1, false, true), 15); // just under
}

#[test]
fn non_jpeg_lossy_takes_flat_compression() {
    // A webp of 1 megapixel: resolution 10 + flat 30.
    assert_eq!(calculate_quality_score(5_000_000, 1000, 1000, false, false), 40);
    assert_eq!(calculate_quality_score(1, 1000, 1000, false, false), 40);
}

#[test]
fn stars_round_to_nearest_half_up() {
    assert_eq!(quality_stars(0), 0);
    assert_eq!(quality_stars(9), 0);
    assert_eq!(quality_stars(10), 1); // 0.5 rounds up
    assert_eq!(quality_stars(29), 1);
    assert_eq!(quality_stars(30), 2);
    assert_eq!(quality_stars(50), 3); // 2.5 rounds up
    assert_eq!(quality_stars(69), 3);
    assert_eq!(quality_stars(70), 4);
    assert_eq!(quality_stars(89), 4);
    assert_eq!(quality_stars(90), 5);
    assert_eq!(quality_stars(100), 5);
}
