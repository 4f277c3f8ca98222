//! Quality scorer: a pure function from image attributes to a 0-100 score.
//!
//! The score is the sum of a resolution term (0-40), stepped on the pixel
//! count, and a compression term (0-60): lossless formats always take 60,
//! JPEG files are stepped on bytes per pixel, and other lossy formats take
//! a flat 30. All thresholds are exact: megapixel steps are multiples of
//! one million pixels, and bytes-per-pixel steps are multiples of a tenth,
//! so the comparisons are carried out on integers.

use vstd::prelude::*;

verus! {

/// Resolution term of the quality score, stepped on the pixel count
/// (one megapixel is one million pixels).
pub open spec fn spec_resolution_score(pixels: nat) -> u8 {
    if pixels >= 48_000_000 {
        40
    } else if pixels >= 24_000_000 {
        35
    } else if pixels >= 12_000_000 {
        30
    } else if pixels >= 8_000_000 {
        25
    } else if pixels >= 5_000_000 {
        20
    } else if pixels >= 2_000_000 {
        15
    } else if pixels >= 1_000_000 {
        10
    } else {
        5
    }
}

/// Bytes-per-pixel comparison against a threshold given in tenths:
/// `bytes / pixels >= tenths / 10`, stated without division. An image
/// with no pixels compares above every threshold exactly when it has
/// at least one byte.
pub open spec fn spec_bpp_at_least(bytes: nat, pixels: nat, tenths: nat) -> bool {
    if pixels == 0 {
        bytes > 0
    } else {
        10 * bytes >= tenths * pixels
    }
}

/// Compression term of the quality score. Lossless formats take the full
/// 60; JPEG files are stepped on bytes per pixel from 60 (at least 4.0)
/// down to 5 (under 0.3); other lossy formats take a flat 30.
pub open spec fn spec_compression_score(
    bytes: nat,
    pixels: nat,
    lossless: bool,
    jpeg: bool,
) -> u8 {
    if lossless {
        60
    } else if !jpeg {
        30
    } else if spec_bpp_at_least(bytes, pixels, 40) {
        60
    } else if spec_bpp_at_least(bytes, pixels, 30) {
        55
    } else if spec_bpp_at_least(bytes, pixels, 25) {
        50
    } else if spec_bpp_at_least(bytes, pixels, 20) {
        45
    } else if spec_bpp_at_least(bytes, pixels, 15) {
        40
    } else if spec_bpp_at_least(bytes, pixels, 12) {
        35
    } else if spec_bpp_at_least(bytes, pixels, 10) {
        30
    } else if spec_bpp_at_least(bytes, pixels, 7) {
        25
    } else if spec_bpp_at_least(bytes, pixels, 5) {
        20
    } else if spec_bpp_at_least(bytes, pixels, 4) {
        15
    } else if spec_bpp_at_least(bytes, pixels, 3) {
        10
    } else {
        5
    }
}

/// Total quality score: resolution term plus compression term. The terms
/// are bounded by 40 and 60, so the total never exceeds 100.
pub open spec fn spec_quality_score(
    bytes: nat,
    pixels: nat,
    lossless: bool,
    jpeg: bool,
) -> u8 {
    (spec_resolution_score(pixels) + spec_compression_score(bytes, pixels, lossless, jpeg)) as u8
}

/// Discrete star rating: the score out of 100 mapped onto 0-5 stars by
/// rounding to the nearest integer (halves round up), clamped to 5.
pub open spec fn spec_quality_stars(score: u8) -> u8 {
    if (score * 5 + 50) / 100 >= 5 {
        5
    } else {
        ((score * 5 + 50) / 100) as u8
    }
}

fn resolution_score(pixels: u64) -> (r: u8)
    ensures
        r == spec_resolution_score(pixels as nat),
        5 <= r <= 40,
{
    if pixels >= 48_000_000 {
        40
    } else if pixels >= 24_000_000 {
        35
    } else if pixels >= 12_000_000 {
        30
    } else if pixels >= 8_000_000 {
        25
    } else if pixels >= 5_000_000 {
        20
    } else if pixels >= 2_000_000 {
        15
    } else if pixels >= 1_000_000 {
        10
    } else {
        5
    }
}

fn bpp_at_least(bytes: u64, pixels: u64, tenths: u64) -> (r: bool)
    requires
        tenths <= 40,
    ensures
        r == spec_bpp_at_least(bytes as nat, pixels as nat, tenths as nat),
{
    if pixels == 0 {
        bytes > 0
    } else {
        proof {
            assert((tenths as int) * (pixels as int) <= 40 * (u64::MAX as int))
                by (nonlinear_arith)
                requires
                    tenths <= 40,
                    pixels <= u64::MAX,
            ;
        }
        10 * (bytes as u128) >= (tenths as u128) * (pixels as u128)
    }
}

fn compression_score(bytes: u64, pixels: u64, lossless: bool, jpeg: bool) -> (r: u8)
    ensures
        r == spec_compression_score(bytes as nat, pixels as nat, lossless, jpeg),
        5 <= r <= 60,
{
    if lossless {
        60
    } else if !jpeg {
        30
    } else if bpp_at_least(bytes, pixels, 40) {
        60
    } else if bpp_at_least(bytes, pixels, 30) {
        55
    } else if bpp_at_least(bytes, pixels, 25) {
        50
    } else if bpp_at_least(bytes, pixels, 20) {
        45
    } else if bpp_at_least(bytes, pixels, 15) {
        40
    } else if bpp_at_least(bytes, pixels, 12) {
        35
    } else if bpp_at_least(bytes, pixels, 10) {
        30
    } else if bpp_at_least(bytes, pixels, 7) {
        25
    } else if bpp_at_least(bytes, pixels, 5) {
        20
    } else if bpp_at_least(bytes, pixels, 4) {
        15
    } else if bpp_at_least(bytes, pixels, 3) {
        10
    } else {
        5
    }
}

/// Quality score of an image: file size in bytes, pixel dimensions, and
/// the format classification decide a deterministic score between 0 and
/// 100 (in fact between 10 and 100).
pub fn calculate_quality_score(
    file_size_bytes: u64,
    width: u32,
    height: u32,
    is_lossless: bool,
    is_jpeg: bool,
) -> (r: u8)
    ensures
        r == spec_quality_score(
            file_size_bytes as nat,
            (width * height) as nat,
            is_lossless,
            is_jpeg,
        ),
        10 <= r <= 100,
{
    proof {
        assert((width as int) * (height as int) <= (u32::MAX as int) * (u32::MAX as int))
            by (nonlinear_arith)
            requires
                width <= u32::MAX,
                height <= u32::MAX,
        ;
    }
    let pixels: u64 = (width as u64) * (height as u64);
    let res: u8 = resolution_score(pixels);
    let comp: u8 = compression_score(file_size_bytes, pixels, is_lossless, is_jpeg);
    res + comp
}

/// Star rating of a 0-100 score: rounds `score / 20` to the nearest
/// whole star, halves up, clamped to five stars.
pub fn quality_stars(score: u8) -> (r: u8)
    requires
        score <= 100,
    ensures
        r == spec_quality_stars(score),
        r <= 5,
{
    let scaled: u16 = (score as u16) * 5 + 50;
    let stars: u16 = scaled / 100;
    if stars >= 5 {
        5
    } else {
        stars as u8
    }
}

/// A lossless image of at least 48 million pixels takes the full score of
/// 100, whatever its file size.
pub proof fn lemma_lossless_high_resolution_full_score(
    bytes: nat,
    pixels: nat,
    jpeg: bool,
)
    requires
        pixels >= 48_000_000,
    ensures
        spec_quality_score(bytes, pixels, true, jpeg) == 100,
{
}

/// A JPEG image under one million pixels with fewer than 0.3 bytes per
/// pixel takes the floor score of 10: 5 for resolution plus 5 for
/// compression.
pub proof fn lemma_small_dense_jpeg_floor_score(bytes: nat, pixels: nat)
    requires
        0 < pixels < 1_000_000,
        10 * bytes < 3 * pixels,
    ensures
        spec_quality_score(bytes, pixels, false, true) == 10,
{
}

} // verus!
