//! Per-file content analysis: the immutable record of one image file's
//! size, dimensions, metadata, quality score and content digest. The
//! caller reads the file system — byte size, decoded pixel dimensions,
//! extracted metadata tags, raw content — and hands the plain values in;
//! the record's every field is then a pure function of them, so analyzing
//! an unmodified file twice yields identical records.

use crate::commit::kv_views;
use crate::file_manager::str_views;
use crate::score::{
    calculate_quality_score, quality_stars, spec_quality_score, spec_quality_stars,
};
use crate::text::{
    file_name_of, lower_eq, spec_contains, spec_digit, spec_extension, spec_file_name,
    spec_lower, split_name, str_contains,
};
use vstd::prelude::*;

verus! {

/// The SHA-256 digest of a byte sequence. The digest is a function of
/// the bytes alone; what it is on given bytes is not stated, only used.
pub uninterp spec fn sha256_of(data: Seq<u8>) -> Seq<u8>;

/// Relies on sha2's `Sha256` through the `Digest` trait: the digest is a
/// deterministic function of the input bytes alone and is 32 bytes long
/// (SHA-256 produces 256 bits).
#[verifier::external_body]
fn sha256_digest(data: &[u8]) -> (r: Vec<u8>)
    ensures
        r@ == sha256_of(data@),
        r@.len() == 32,
{
    let out = <sha2::Sha256 as sha2::Digest>::digest(data);
    out.as_slice().to_vec()
}

/// The lowercase hexadecimal digit for a value below sixteen.
pub open spec fn spec_hex_digit(d: nat) -> char {
    if d < 10 {
        spec_digit(d)
    } else if d == 10 {
        'a'
    } else if d == 11 {
        'b'
    } else if d == 12 {
        'c'
    } else if d == 13 {
        'd'
    } else if d == 14 {
        'e'
    } else {
        'f'
    }
}

/// The lowercase hexadecimal rendering of a byte sequence: two digits per
/// byte, high nibble first.
pub open spec fn spec_hex(bytes: Seq<u8>) -> Seq<char>
    decreases bytes.len(),
{
    if bytes.len() == 0 {
        Seq::empty()
    } else {
        spec_hex(bytes.drop_last()) + seq![
            spec_hex_digit((bytes.last() / 16) as nat),
            spec_hex_digit((bytes.last() % 16) as nat),
        ]
    }
}

/// A hexadecimal rendering is twice as long as its bytes.
pub proof fn lemma_hex_len(bytes: Seq<u8>)
    ensures
        spec_hex(bytes).len() == 2 * bytes.len(),
    decreases bytes.len(),
{
    if bytes.len() > 0 {
        lemma_hex_len(bytes.drop_last());
    }
}

fn hex_digit_str(d: u8) -> (r: &'static str)
    requires
        d < 16,
    ensures
        r@ == seq![spec_hex_digit(d as nat)],
{
    let r: &'static str = if d == 0 {
        "0"
    } else if d == 1 {
        "1"
    } else if d == 2 {
        "2"
    } else if d == 3 {
        "3"
    } else if d == 4 {
        "4"
    } else if d == 5 {
        "5"
    } else if d == 6 {
        "6"
    } else if d == 7 {
        "7"
    } else if d == 8 {
        "8"
    } else if d == 9 {
        "9"
    } else if d == 10 {
        "a"
    } else if d == 11 {
        "b"
    } else if d == 12 {
        "c"
    } else if d == 13 {
        "d"
    } else if d == 14 {
        "e"
    } else {
        "f"
    };
    proof {
        reveal_strlit("0");
        reveal_strlit("1");
        reveal_strlit("2");
        reveal_strlit("3");
        reveal_strlit("4");
        reveal_strlit("5");
        reveal_strlit("6");
        reveal_strlit("7");
        reveal_strlit("8");
        reveal_strlit("9");
        reveal_strlit("a");
        reveal_strlit("b");
        reveal_strlit("c");
        reveal_strlit("d");
        reveal_strlit("e");
        reveal_strlit("f");
        assert(r@ =~= seq![spec_hex_digit(d as nat)]);
    }
    r
}

/// Renders bytes as lowercase hexadecimal, two digits per byte.
pub fn to_hex(bytes: &Vec<u8>) -> (r: String)
    ensures
        r@ == spec_hex(bytes@),
{
    let mut out = String::new();
    let mut i: usize = 0;
    proof {
        assert(bytes@.take(0).len() == 0);
        assert(out@ =~= spec_hex(bytes@.take(0)));
    }
    while i < bytes.len()
        invariant
            i <= bytes@.len(),
            out@ == spec_hex(bytes@.take(i as int)),
        decreases bytes@.len() - i,
    {
        let b = bytes[i];
        out.append(hex_digit_str(b / 16));
        out.append(hex_digit_str(b % 16));
        proof {
            assert(bytes@.take(i + 1).drop_last() =~= bytes@.take(i as int));
            assert(bytes@.take(i + 1).last() == bytes@[i as int]);
            assert(out@ =~= spec_hex(bytes@.take(i + 1)));
        }
        i += 1;
    }
    proof {
        assert(bytes@.take(bytes@.len() as int) =~= bytes@);
    }
    out
}

/// The content digest of a file, as a fixed-length lowercase hex string:
/// the SHA-256 of its bytes, 64 digits.
pub fn calculate_file_hash(content: &[u8]) -> (r: String)
    ensures
        r@ == spec_hex(sha256_of(content@)),
        r@.len() == 64,
{
    let digest = sha256_digest(content);
    let r = to_hex(&digest);
    proof {
        lemma_hex_len(digest@);
    }
    r
}

/// Hashing is deterministic: one content, one digest. That altering a
/// byte changes the digest is a property of SHA-256 itself, exercised by
/// tests rather than stated.
pub proof fn lemma_hash_deterministic(a: Seq<u8>, b: Seq<u8>)
    requires
        a == b,
    ensures
        spec_hex(sha256_of(a)) == spec_hex(sha256_of(b)),
{
}

/// Whether the path's extension marks a lossless format (png, tiff, tif
/// or bmp), case-insensitively.
pub open spec fn spec_is_lossless(path: Seq<char>) -> bool {
    match spec_extension(spec_file_name(path)) {
        Some(e) => {
            let l = spec_lower(e);
            l == "png"@ || l == "tiff"@ || l == "tif"@ || l == "bmp"@
        },
        None => false,
    }
}

/// Whether the path's extension marks a JPEG file, case-insensitively.
pub open spec fn spec_is_jpeg(path: Seq<char>) -> bool {
    match spec_extension(spec_file_name(path)) {
        Some(e) => {
            let l = spec_lower(e);
            l == "jpg"@ || l == "jpeg"@
        },
        None => false,
    }
}

/// Whether the path's extension marks a lossless format.
pub fn is_lossless_format(path: &str) -> (r: bool)
    ensures
        r == spec_is_lossless(path@),
{
    let name = file_name_of(path);
    let (_stem, ext_opt) = split_name(name.as_str());
    match ext_opt {
        Some(e) => {
            let s = e.as_str();
            lower_eq(s, "png") || lower_eq(s, "tiff") || lower_eq(s, "tif") || lower_eq(s, "bmp")
        },
        None => false,
    }
}

/// Whether the path's extension marks a JPEG file.
pub fn is_jpeg_format(path: &str) -> (r: bool)
    ensures
        r == spec_is_jpeg(path@),
{
    let name = file_name_of(path);
    let (_stem, ext_opt) = split_name(name.as_str());
    match ext_opt {
        Some(e) => {
            let s = e.as_str();
            lower_eq(s, "jpg") || lower_eq(s, "jpeg")
        },
        None => false,
    }
}

/// Why a file could not be analyzed. The driver, which reads and
/// decodes, reports which step failed and on which path; either failure
/// is fatal for that file's pair alone.
#[derive(Debug)]
pub enum AnalysisError {
    /// The file or its size could not be read.
    Unreadable {
        /// The offending path.
        path: String,
    },
    /// The image container could not be decoded.
    Undecodable {
        /// The offending path.
        path: String,
    },
}

impl AnalysisError {
    /// A human-readable report naming the offending path.
    pub fn describe(&self) -> (r: String)
        ensures
            match self {
                AnalysisError::Unreadable { path } => r@ == "failed to read "@ + path@,
                AnalysisError::Undecodable { path } => r@ == "failed to decode image "@ + path@,
            },
    {
        match self {
            AnalysisError::Unreadable { path } => {
                let mut s = "failed to read ".to_owned();
                s.append(path.as_str());
                s
            },
            AnalysisError::Undecodable { path } => {
                let mut s = "failed to decode image ".to_owned();
                s.append(path.as_str());
                s
            },
        }
    }
}

/// The immutable analysis record of one image file.
pub struct ImageAnalysis {
    /// The analyzed file's path.
    pub file_path: String,
    /// Its size on disk, in bytes.
    pub file_size_bytes: u64,
    /// Decoded pixel width.
    pub width: u32,
    /// Decoded pixel height.
    pub height: u32,
    /// How many metadata tags were extracted.
    pub metadata_count: usize,
    /// The extracted (tag, display value) pairs, in extraction order,
    /// duplicates permitted.
    pub exif_data: Vec<(String, String)>,
    /// The 0-100 quality score.
    pub quality_score: u8,
    /// The content digest: 64 lowercase hex digits.
    pub hash: String,
}

impl ImageAnalysis {
    /// Internal consistency of a record: the tag count matches the list,
    /// the score is within range, the digest has its fixed length.
    pub open spec fn wf(self) -> bool {
        &&& self.metadata_count == self.exif_data@.len()
        &&& self.quality_score <= 100
        &&& self.hash@.len() == 64
    }

    /// Assembles the analysis record of one file from the plain facts
    /// read off the disk: path, byte size, decoded dimensions, extracted
    /// metadata (`None` when extraction failed, recovered here as an
    /// empty list, never an error), and the raw content for hashing.
    /// Every field of the result is a pure function of the arguments.
    pub fn analyze_image(
        file_path: String,
        file_size_bytes: u64,
        width: u32,
        height: u32,
        exif_data: Option<Vec<(String, String)>>,
        content: &[u8],
    ) -> (r: ImageAnalysis)
        ensures
            r.wf(),
            r.file_path == file_path,
            r.file_size_bytes == file_size_bytes,
            r.width == width,
            r.height == height,
            r.exif_data@ == (match exif_data {
                Some(v) => v@,
                None => Seq::<(String, String)>::empty(),
            }),
            r.quality_score == spec_quality_score(
                file_size_bytes as nat,
                (width * height) as nat,
                spec_is_lossless(file_path@),
                spec_is_jpeg(file_path@),
            ),
            r.hash@ == spec_hex(sha256_of(content@)),
    {
        let lossless = is_lossless_format(file_path.as_str());
        let jpeg = is_jpeg_format(file_path.as_str());
        let quality_score = calculate_quality_score(
            file_size_bytes,
            width,
            height,
            lossless,
            jpeg,
        );
        let hash = calculate_file_hash(content);
        let tags: Vec<(String, String)> = match exif_data {
            Some(v) => v,
            None => Vec::new(),
        };
        let metadata_count = tags.len();
        ImageAnalysis {
            file_path,
            file_size_bytes,
            width,
            height,
            metadata_count,
            exif_data: tags,
            quality_score,
            hash,
        }
    }

    /// The filled-star count of the five-star display: the score mapped
    /// onto 0-5 by rounding to the nearest star, halves up, clamped to 5.
    pub fn get_quality_stars(&self) -> (r: u8)
        requires
            self.wf(),
        ensures
            r == spec_quality_stars(self.quality_score),
            r <= 5,
    {
        quality_stars(self.quality_score)
    }
}

/// Whether a metadata key is worth surfacing: it mentions the capture
/// date, camera make or model, or a core exposure setting.
pub open spec fn spec_is_important_key(key: Seq<char>) -> bool {
    ||| spec_contains(key, "DateTime"@)
    ||| spec_contains(key, "Make"@)
    ||| spec_contains(key, "Model"@)
    ||| spec_contains(key, "ISO"@)
    ||| spec_contains(key, "FNumber"@)
    ||| spec_contains(key, "ExposureTime"@)
}

/// The surfaced lines: each important entry as `key: value`, in order.
pub open spec fn spec_important_metadata(entries: Seq<(Seq<char>, Seq<char>)>) -> Seq<Seq<char>> {
    entries.filter(|kv: (Seq<char>, Seq<char>)| spec_is_important_key(kv.0)).map_values(
        |kv: (Seq<char>, Seq<char>)| kv.0 + ": "@ + kv.1,
    )
}

impl ImageAnalysis {
    /// The metadata entries worth surfacing, each rendered `key: value`.
    pub fn get_important_metadata(&self) -> (r: Vec<String>)
        ensures
            str_views(r@) == spec_important_metadata(kv_views(self.exif_data@)),
    {
        let ghost kvs = kv_views(self.exif_data@);
        let mut r: Vec<String> = Vec::new();
        let mut i: usize = 0;
        proof {
            reveal(Seq::filter);
            assert(kvs.take(0).len() == 0);
            assert(str_views(r@) =~= spec_important_metadata(kvs.take(0)));
        }
        while i < self.exif_data.len()
            invariant
                i <= self.exif_data@.len(),
                kvs == kv_views(self.exif_data@),
                kvs.len() == self.exif_data@.len(),
                str_views(r@) == spec_important_metadata(kvs.take(i as int)),
            decreases self.exif_data@.len() - i,
        {
            let key = &self.exif_data[i].0;
            let ghost before = r@;
            proof {
                reveal(Seq::filter);
                assert(kvs.take(i + 1).drop_last() =~= kvs.take(i as int));
                assert(kvs.take(i + 1).last() == kvs[i as int]);
                assert(kvs[i as int] == (self.exif_data@[i as int].0@, self.exif_data@[
                    i as int].1@));
            }
            let important = str_contains(key.as_str(), "DateTime") || str_contains(
                key.as_str(),
                "Make",
            ) || str_contains(key.as_str(), "Model") || str_contains(key.as_str(), "ISO")
                || str_contains(key.as_str(), "FNumber") || str_contains(
                key.as_str(),
                "ExposureTime",
            );
            if important {
                let mut line = key.clone();
                line.append(": ");
                line.append(self.exif_data[i].1.as_str());
                r.push(line);
                proof {
                    reveal(Seq::filter);
                    assert(str_views(r@) =~= str_views(before).push(
                        kvs[i as int].0 + ": "@ + kvs[i as int].1,
                    ));
                    assert(spec_important_metadata(kvs.take(i + 1)) =~= spec_important_metadata(
                        kvs.take(i as int),
                    ).push(kvs[i as int].0 + ": "@ + kvs[i as int].1));
                }
            } else {
                proof {
                    reveal(Seq::filter);
                    assert(spec_important_metadata(kvs.take(i + 1)) =~= spec_important_metadata(
                        kvs.take(i as int),
                    ));
                }
            }
            i += 1;
        }
        proof {
            assert(kvs.take(self.exif_data@.len() as int) =~= kvs);
        }
        r
    }
}

} // verus!
