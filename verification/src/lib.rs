//! PhotoScope: reconciles two directory trees of photos by matching files
//! with equal base names, scoring each side for quality, and committing the
//! preferred file into an output directory under a collision-free name,
//! optionally carrying over the richer side's embedded metadata.
//!
//! The library holds the verified core: the pair matcher, the quality
//! scorer, the per-file analysis record, the collision-safe commit naming,
//! and the stepwise decision session. Directory walking, image decoding,
//! metadata extraction and file copying are performed by the caller, which
//! hands the library plain values.

use vstd::prelude::*;

pub mod commit;
pub mod file_manager;
pub mod image_analyzer;
pub mod score;
pub mod selector;
pub mod session;
pub mod text;

verus! {

} // verus!
