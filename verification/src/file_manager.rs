//! Pair matcher and path bookkeeping. Given the regular files enumerated
//! under two root folders, the matcher keeps only recognized image files,
//! indexes the first tree by base file name (a later file with the same
//! base name replaces an earlier one — a documented limitation), emits one
//! pair for each file of the second tree whose base name is indexed, and
//! orders the pairs lexicographically by shared base name.

use crate::text::{
    file_name_of, lex_le, lower_eq, spec_extension, spec_file_name, spec_lower, split_name,
    str_le,
};
use vstd::prelude::*;

verus! {

/// The views of a sequence of strings.
pub open spec fn str_views(s: Seq<String>) -> Seq<Seq<char>> {
    s.map_values(|x: String| x@)
}

/// Whether an extension, lower-cased, is on the fixed allow-list of
/// recognized image extensions.
pub open spec fn spec_is_image_ext(ext: Seq<char>) -> bool {
    let l = spec_lower(ext);
    ||| l == "jpg"@
    ||| l == "jpeg"@
    ||| l == "png"@
    ||| l == "gif"@
    ||| l == "bmp"@
    ||| l == "tiff"@
    ||| l == "tif"@
    ||| l == "webp"@
    ||| l == "raw"@
    ||| l == "cr2"@
    ||| l == "nef"@
    ||| l == "arw"@
    ||| l == "dng"@
}

/// Whether a path names a recognized image file: its base name must have
/// an extension on the allow-list, compared case-insensitively.
pub open spec fn spec_is_image_file(path: Seq<char>) -> bool {
    match spec_extension(spec_file_name(path)) {
        Some(e) => spec_is_image_ext(e),
        None => false,
    }
}

/// A matched pair: one path per root, sharing an exact base file name.
pub struct MatchedPair {
    pub path1: String,
    pub path2: String,
}

/// The mathematical content of a matched pair: the two paths as
/// character sequences.
pub struct PairView {
    pub path1: Seq<char>,
    pub path2: Seq<char>,
}

impl View for MatchedPair {
    type V = PairView;

    open spec fn view(&self) -> PairView {
        PairView { path1: self.path1@, path2: self.path2@ }
    }
}

impl Clone for MatchedPair {
    fn clone(&self) -> (r: Self)
        ensures
            r@ == self@,
    {
        MatchedPair { path1: self.path1.clone(), path2: self.path2.clone() }
    }
}

/// The views of a sequence of matched pairs.
pub open spec fn pair_views(s: Seq<MatchedPair>) -> Seq<PairView> {
    s.map_values(|m: MatchedPair| m@)
}

/// The base name both sides of a pair share; pairs are ordered by it.
pub open spec fn pair_key(p: PairView) -> Seq<char> {
    spec_file_name(p.path1)
}

/// The image file of `paths` with base name `name` that was indexed last,
/// if any: a later file with the same base name replaces an earlier one.
pub open spec fn spec_lookup_image(paths: Seq<Seq<char>>, name: Seq<char>) -> Option<Seq<char>>
    decreases paths.len(),
{
    if paths.len() == 0 {
        None
    } else if spec_is_image_file(paths.last()) && spec_file_name(paths.last()) == name {
        Some(paths.last())
    } else {
        spec_lookup_image(paths.drop_last(), name)
    }
}

/// The matched pairs in discovery order: for each image file of the
/// second tree, in order, the pair with the last-indexed image file of
/// the first tree that shares its base name, if there is one.
pub open spec fn spec_raw_pairs(paths1: Seq<Seq<char>>, paths2: Seq<Seq<char>>) -> Seq<PairView>
    decreases paths2.len(),
{
    if paths2.len() == 0 {
        Seq::empty()
    } else {
        let rest = spec_raw_pairs(paths1, paths2.drop_last());
        let p2 = paths2.last();
        if spec_is_image_file(p2) {
            match spec_lookup_image(paths1, spec_file_name(p2)) {
                Some(p1) => rest.push(PairView { path1: p1, path2: p2 }),
                None => rest,
            }
        } else {
            rest
        }
    }
}

/// Insertion of a pair into a sorted run: it goes after every pair whose
/// key orders at or before its own, so equal keys keep their relative
/// order.
pub open spec fn spec_insert_sorted(p: PairView, s: Seq<PairView>) -> Seq<PairView>
    decreases s.len(),
{
    if s.len() == 0 {
        seq![p]
    } else if lex_le(pair_key(s[0]), pair_key(p)) {
        seq![s[0]] + spec_insert_sorted(p, s.drop_first())
    } else {
        seq![p] + s
    }
}

/// Stable sort of the pairs by base name: each pair, in discovery order,
/// is inserted into the sorted run of its predecessors.
pub open spec fn spec_sort_pairs(s: Seq<PairView>) -> Seq<PairView>
    decreases s.len(),
{
    if s.len() == 0 {
        s
    } else {
        spec_insert_sorted(s.last(), spec_sort_pairs(s.drop_last()))
    }
}

/// Why a session could not be set up. Both root folders must exist and
/// the output folder must be writable before any pair is processed; the
/// caller, which touches the file system, reports which check failed.
#[derive(Debug)]
pub enum SetupError {
    /// A root folder does not exist.
    MissingRoot {
        /// The offending path.
        path: String,
    },
    /// The output folder could not be created or written.
    OutputNotWritable {
        /// The offending path.
        path: String,
    },
}

impl SetupError {
    /// A human-readable report naming the offending path.
    pub fn describe(&self) -> (r: String)
        ensures
            match self {
                SetupError::MissingRoot { path } => r@ == "folder does not exist: "@ + path@,
                SetupError::OutputNotWritable { path } => r@
                    == "failed to create output directory "@ + path@,
            },
    {
        match self {
            SetupError::MissingRoot { path } => {
                let mut s = "folder does not exist: ".to_owned();
                s.append(path.as_str());
                s
            },
            SetupError::OutputNotWritable { path } => {
                let mut s = "failed to create output directory ".to_owned();
                s.append(path.as_str());
                s
            },
        }
    }
}

/// The two root folders under comparison and the output folder commits
/// are written to.
pub struct FileManager {
    pub folder1: String,
    pub folder2: String,
    pub output_folder: String,
}

impl Clone for FileManager {
    fn clone(&self) -> (r: Self)
        ensures
            r == *self,
    {
        FileManager {
            folder1: self.folder1.clone(),
            folder2: self.folder2.clone(),
            output_folder: self.output_folder.clone(),
        }
    }
}

impl FileManager {
    /// Pairs two root folders with the fixed output location. The caller
    /// validates that both roots exist and creates the output directory
    /// before any commit.
    pub fn new(folder1: String, folder2: String) -> (r: Self)
        ensures
            r.folder1 == folder1,
            r.folder2 == folder2,
            r.output_folder@ == "output"@,
    {
        FileManager { folder1, folder2, output_folder: "output".to_owned() }
    }

    /// Whether a path names a recognized image file, by its extension,
    /// case-insensitively.
    pub fn is_image_file(path: &str) -> (r: bool)
        ensures
            r == spec_is_image_file(path@),
    {
        let name = file_name_of(path);
        let (_stem, ext_opt) = split_name(name.as_str());
        match ext_opt {
            Some(e) => {
                let s = e.as_str();
                lower_eq(s, "jpg") || lower_eq(s, "jpeg") || lower_eq(s, "png") || lower_eq(
                    s,
                    "gif",
                ) || lower_eq(s, "bmp") || lower_eq(s, "tiff") || lower_eq(s, "tif") || lower_eq(
                    s,
                    "webp",
                ) || lower_eq(s, "raw") || lower_eq(s, "cr2") || lower_eq(s, "nef") || lower_eq(
                    s,
                    "arw",
                ) || lower_eq(s, "dng")
            },
            None => false,
        }
    }

    /// How `path` is displayed relative to the two roots: the remainder
    /// under the root that holds it, labelled `Folder1/` or `Folder2/`,
    /// or the path itself when it lies under neither.
    pub fn get_relative_path(&self, path: &String) -> (r: String)
        ensures
            r@ == spec_relative_path(path@, self.folder1@, self.folder2@),
    {
        if is_under(path.as_str(), self.folder1.as_str()) {
            let suffix = rel_suffix(path.as_str(), self.folder1.as_str());
            let mut out = "Folder1/".to_owned();
            out.append(suffix.as_str());
            out
        } else if is_under(path.as_str(), self.folder2.as_str()) {
            let suffix = rel_suffix(path.as_str(), self.folder2.as_str());
            let mut out = "Folder2/".to_owned();
            out.append(suffix.as_str());
            out
        } else {
            path.clone()
        }
    }

    /// Matches the files enumerated under the two roots: keeps image
    /// files, pairs each image file of the second tree with the
    /// last-indexed image file of the first tree sharing its base name,
    /// and sorts the pairs by that name.
    pub fn find_matching_files(&self, paths1: &Vec<String>, paths2: &Vec<String>) -> (r: Vec<
        MatchedPair,
    >)
        ensures
            pair_views(r@) == spec_sort_pairs(
                spec_raw_pairs(str_views(paths1@), str_views(paths2@)),
            ),
            pairs_sorted(pair_views(r@)),
    {
        proof {
            lemma_sort_pairs_sorted(spec_raw_pairs(str_views(paths1@), str_views(paths2@)));
        }
        let ghost v1 = str_views(paths1@);
        let ghost v2 = str_views(paths2@);
        let mut raw: Vec<MatchedPair> = Vec::new();
        let mut i: usize = 0;
        proof {
            assert(v2.take(0).len() == 0);
            assert(pair_views(raw@) =~= spec_raw_pairs(v1, v2.take(0)));
        }
        while i < paths2.len()
            invariant
                i <= paths2.len(),
                v1 == str_views(paths1@),
                v2 == str_views(paths2@),
                v2.len() == paths2@.len(),
                pair_views(raw@) == spec_raw_pairs(v1, v2.take(i as int)),
            decreases paths2@.len() - i,
        {
            let p2 = &paths2[i];
            proof {
                assert(v2.take(i + 1).drop_last() =~= v2.take(i as int));
                assert(v2.take(i + 1).last() == v2[i as int]);
                assert(v2[i as int] == p2@);
            }
            if Self::is_image_file(p2.as_str()) {
                let name = file_name_of(p2.as_str());
                match lookup_image(paths1, &name) {
                    Some(p1) => {
                        let mp = MatchedPair { path1: p1, path2: p2.clone() };
                        let ghost before = raw@;
                        raw.push(mp);
                        proof {
                            assert(pair_views(raw@) =~= pair_views(before).push(
                                PairView { path1: mp.path1@, path2: mp.path2@ },
                            ));
                        }
                    },
                    None => {},
                }
            }
            i += 1;
        }
        proof {
            assert(v2.take(paths2@.len() as int) =~= v2);
        }
        sort_pairs(raw)
    }
}

/// Whether `path` lies under the folder `dir`: it equals `dir`, or `dir`
/// followed by a path separator is a prefix of it. A folder given with a
/// trailing separator is treated as that separator-terminated prefix.
pub open spec fn spec_is_under(path: Seq<char>, dir: Seq<char>) -> bool {
    if dir.len() > 0 && dir.last() == '/' {
        path.len() >= dir.len() && path.take(dir.len() as int) == dir
    } else {
        path == dir || (path.len() > dir.len() && path.take(dir.len() as int) == dir && path[
            dir.len() as int
        ] == '/')
    }
}

/// The remainder of `path` under the folder `dir`, without a leading
/// separator; empty when the two are equal.
pub open spec fn spec_rel_suffix(path: Seq<char>, dir: Seq<char>) -> Seq<char> {
    if dir.len() > 0 && dir.last() == '/' {
        path.skip(dir.len() as int)
    } else if path == dir {
        Seq::empty()
    } else {
        path.skip(dir.len() as int + 1)
    }
}

/// How a path is displayed relative to the two roots: the remainder under
/// the first root that holds it, labelled with that root's number, or the
/// path itself when it lies under neither.
pub open spec fn spec_relative_path(path: Seq<char>, folder1: Seq<char>, folder2: Seq<char>)
    -> Seq<char> {
    if spec_is_under(path, folder1) {
        "Folder1/"@ + spec_rel_suffix(path, folder1)
    } else if spec_is_under(path, folder2) {
        "Folder2/"@ + spec_rel_suffix(path, folder2)
    } else {
        path
    }
}

/// Whether `dir` is a prefix of `path`, character for character.
fn has_prefix(path: &str, dir: &str) -> (r: bool)
    ensures
        r == (path@.len() >= dir@.len() && path@.take(dir@.len() as int) == dir@),
{
    let n: usize = path.unicode_len();
    let m: usize = dir.unicode_len();
    if n < m {
        return false;
    }
    let mut i: usize = 0;
    while i < m
        invariant
            i <= m <= n,
            n == path@.len(),
            m == dir@.len(),
            forall|j: int| 0 <= j < i ==> path@[j] == dir@[j],
        decreases m - i,
    {
        if path.get_char(i) != dir.get_char(i) {
            proof {
                assert(path@.take(m as int)[i as int] != dir@[i as int]);
            }
            return false;
        }
        i += 1;
    }
    proof {
        assert(path@.take(m as int) =~= dir@);
    }
    true
}

fn is_under(path: &str, dir: &str) -> (r: bool)
    ensures
        r == spec_is_under(path@, dir@),
{
    let n: usize = path.unicode_len();
    let m: usize = dir.unicode_len();
    if m > 0 && dir.get_char(m - 1) == '/' {
        has_prefix(path, dir)
    } else if n == m {
        let r = has_prefix(path, dir);
        proof {
            if r {
                assert(path@.take(m as int) =~= path@);
            }
            if path@ == dir@ {
                assert(path@.take(m as int) =~= dir@);
            }
        }
        r
    } else if n > m {
        has_prefix(path, dir) && path.get_char(m) == '/'
    } else {
        proof {
            assert(path@.len() != dir@.len());
        }
        false
    }
}

fn rel_suffix(path: &str, dir: &str) -> (r: String)
    requires
        spec_is_under(path@, dir@),
    ensures
        r@ == spec_rel_suffix(path@, dir@),
{
    let n: usize = path.unicode_len();
    let m: usize = dir.unicode_len();
    if m > 0 && dir.get_char(m - 1) == '/' {
        path.substring_char(m, n).to_owned()
    } else if n == m {
        proof {
            assert(path@ == dir@);
        }
        String::new()
    } else {
        path.substring_char(m + 1, n).to_owned()
    }
}

/// The last-indexed image file of `paths` whose base name is `name`.
fn lookup_image(paths: &Vec<String>, name: &String) -> (r: Option<String>)
    ensures
        match r {
            Some(p) => spec_lookup_image(str_views(paths@), name@) == Some(p@),
            None => spec_lookup_image(str_views(paths@), name@) is None,
        },
{
    let ghost vs = str_views(paths@);
    let mut i: usize = paths.len();
    proof {
        assert(vs.take(paths@.len() as int) =~= vs);
    }
    while i > 0
        invariant
            i <= paths@.len(),
            vs == str_views(paths@),
            vs.len() == paths@.len(),
            spec_lookup_image(vs, name@) == spec_lookup_image(vs.take(i as int), name@),
        decreases i,
    {
        let p = &paths[i - 1];
        proof {
            assert(vs.take(i as int).last() == vs[i - 1]);
            assert(vs[i - 1] == p@);
        }
        if FileManager::is_image_file(p.as_str()) {
            let fname = file_name_of(p.as_str());
            if fname == *name {
                proof {
                    assert(spec_lookup_image(vs.take(i as int), name@) == Some(p@));
                }
                return Some(p.clone());
            }
        }
        proof {
            assert(vs.take(i as int).drop_last() =~= vs.take(i - 1));
        }
        i -= 1;
    }
    proof {
        assert(vs.take(0).len() == 0);
    }
    None
}

/// The position a pair with key `key` is inserted at: just after every
/// pair whose key orders at or before `key`.
fn find_insert_pos(v: &Vec<MatchedPair>, key: &String) -> (j: usize)
    ensures
        j <= v@.len(),
        forall|k: int| 0 <= k < j ==> lex_le(pair_key(#[trigger] pair_views(v@)[k]), key@),
        j < v@.len() ==> !lex_le(pair_key(pair_views(v@)[j as int]), key@),
{
    let n: usize = v.len();
    let mut j: usize = 0;
    loop
        invariant
            j <= n,
            n == v@.len(),
            forall|k: int| 0 <= k < j ==> lex_le(pair_key(#[trigger] pair_views(v@)[k]), key@),
        decreases n - j,
    {
        if j == n {
            return j;
        }
        let kj = file_name_of(v[j].path1.as_str());
        if !str_le(kj.as_str(), key.as_str()) {
            proof {
                assert(pair_views(v@)[j as int] == v@[j as int]@);
            }
            return j;
        }
        proof {
            assert(pair_views(v@)[j as int] == v@[j as int]@);
        }
        j += 1;
    }
}

/// Splitting a sorted run at the insertion position realizes the
/// recursive insertion.
proof fn lemma_insert_sorted_at(p: PairView, s: Seq<PairView>, j: int)
    requires
        0 <= j <= s.len(),
        forall|k: int| 0 <= k < j ==> lex_le(pair_key(#[trigger] s[k]), pair_key(p)),
        j < s.len() ==> !lex_le(pair_key(s[j]), pair_key(p)),
    ensures
        spec_insert_sorted(p, s) == s.take(j) + seq![p] + s.skip(j),
    decreases j,
{
    if j == 0 {
        if s.len() == 0 {
            assert(spec_insert_sorted(p, s) =~= s.take(0) + seq![p] + s.skip(0));
        } else {
            assert(seq![p] + s =~= s.take(0) + seq![p] + s.skip(0));
        }
    } else {
        let t = s.drop_first();
        assert(forall|k: int| 0 <= k < j - 1 ==> #[trigger] t[k] == s[k + 1]);
        if j - 1 < t.len() {
            assert(t[j - 1] == s[j]);
        }
        lemma_insert_sorted_at(p, t, j - 1);
        assert(lex_le(pair_key(s[0]), pair_key(p)));
        assert(seq![s[0]] + (t.take(j - 1) + seq![p] + t.skip(j - 1)) =~= s.take(j) + seq![p]
            + s.skip(j));
    }
}

/// Inserts a pair into a run kept sorted by base name.
fn insert_pair_sorted(out: &mut Vec<MatchedPair>, p: MatchedPair)
    ensures
        pair_views(final(out)@) == spec_insert_sorted(p@, pair_views(old(out)@)),
{
    let key = file_name_of(p.path1.as_str());
    let pos = find_insert_pos(out, &key);
    let ghost before = pair_views(out@);
    out.insert(pos, p);
    proof {
        lemma_insert_sorted_at(p@, before, pos as int);
        assert(pair_views(out@) =~= before.take(pos as int) + seq![p@] + before.skip(pos as int));
    }
}

/// Sorts the raw pairs by shared base name, stably.
fn sort_pairs(raw: Vec<MatchedPair>) -> (r: Vec<MatchedPair>)
    ensures
        pair_views(r@) == spec_sort_pairs(pair_views(raw@)),
{
    let ghost orig = pair_views(raw@);
    let mut rest = raw;
    let mut out: Vec<MatchedPair> = Vec::new();
    proof {
        assert(orig.take(0).len() == 0);
        assert(pair_views(out@) =~= spec_sort_pairs(orig.take(0)));
        assert(pair_views(rest@) =~= orig.skip(0));
    }
    while rest.len() > 0
        invariant
            rest@.len() <= orig.len(),
            pair_views(rest@) == orig.skip(orig.len() - rest@.len()),
            pair_views(out@) == spec_sort_pairs(orig.take(orig.len() - rest@.len())),
        decreases rest@.len(),
    {
        let ghost k = orig.len() - rest@.len();
        let ghost prev = rest@;
        let p = rest.remove(0);
        proof {
            assert(pair_views(prev)[0] == prev[0]@);
            assert(orig.skip(k as int)[0] == orig[k as int]);
            assert(p@ == orig[k as int]);
            assert(orig.take(k + 1).drop_last() =~= orig.take(k as int));
            assert(orig.take(k + 1).last() == orig[k as int]);
        }
        insert_pair_sorted(&mut out, p);
        proof {
            assert forall|m: int| 0 <= m < rest@.len() implies pair_views(rest@)[m] == orig.skip(
                k + 1,
            )[m] by {
                assert(pair_views(rest@)[m] == rest@[m]@);
                assert(rest@[m] == prev[m + 1]);
                assert(pair_views(prev)[m + 1] == prev[m + 1]@);
                assert(pair_views(prev)[m + 1] == orig.skip(k as int)[m + 1]);
            }
            assert(pair_views(rest@) =~= orig.skip(k + 1));
        }
    }
    proof {
        assert(orig.take(orig.len() as int) =~= orig);
    }
    out
}

/// Whether a run of pairs is ordered by base name.
pub open spec fn pairs_sorted(s: Seq<PairView>) -> bool {
    forall|i: int, j: int|
        0 <= i < j < s.len() ==> lex_le(pair_key(#[trigger] s[i]), pair_key(#[trigger] s[j]))
}

proof fn lemma_insert_sorted_elems(p: PairView, s: Seq<PairView>)
    ensures
        forall|x: PairView| #[trigger]
            spec_insert_sorted(p, s).contains(x) <==> (x == p || s.contains(x)),
    decreases s.len(),
{
    if s.len() == 0 {
        assert(spec_insert_sorted(p, s) == seq![p]);
        assert(seq![p][0] == p);
        assert forall|x: PairView| #[trigger] seq![p].contains(x) implies (x == p || s.contains(x)) by {
            let i = choose|i: int| 0 <= i < seq![p].len() && seq![p][i] == x;
            assert(seq![p][i] == p);
        }
        assert(seq![p].contains(p));
    } else if lex_le(pair_key(s[0]), pair_key(p)) {
        let t = s.drop_first();
        lemma_insert_sorted_elems(p, t);
        let r = seq![s[0]] + spec_insert_sorted(p, t);
        assert(spec_insert_sorted(p, s) == r);
        assert forall|x: PairView| #[trigger] r.contains(x) implies (x == p || s.contains(x)) by {
            let i = choose|i: int| 0 <= i < r.len() && r[i] == x;
            if i == 0 {
                assert(s[0] == x);
                assert(s.contains(x));
            } else {
                assert(spec_insert_sorted(p, t)[i - 1] == x);
                assert(spec_insert_sorted(p, t).contains(x));
                if x != p {
                    let j = choose|j: int| 0 <= j < t.len() && t[j] == x;
                    assert(s[j + 1] == x);
                    assert(s.contains(x));
                }
            }
        }
        assert forall|x: PairView| x == p || s.contains(x) implies #[trigger] r.contains(x) by {
            if x == p {
                assert(spec_insert_sorted(p, t).contains(x));
                let i = choose|i: int| 0 <= i < spec_insert_sorted(p, t).len()
                    && spec_insert_sorted(p, t)[i] == x;
                assert(r[i + 1] == x);
            } else {
                let j = choose|j: int| 0 <= j < s.len() && s[j] == x;
                if j == 0 {
                    assert(r[0] == x);
                } else {
                    assert(t[j - 1] == x);
                    assert(t.contains(x));
                    assert(spec_insert_sorted(p, t).contains(x));
                    let i = choose|i: int| 0 <= i < spec_insert_sorted(p, t).len()
                        && spec_insert_sorted(p, t)[i] == x;
                    assert(r[i + 1] == x);
                }
            }
        }
    } else {
        let r = seq![p] + s;
        assert(spec_insert_sorted(p, s) == r);
        assert forall|x: PairView| #[trigger] r.contains(x) implies (x == p || s.contains(x)) by {
            let i = choose|i: int| 0 <= i < r.len() && r[i] == x;
            if i > 0 {
                assert(s[i - 1] == x);
            }
        }
        assert forall|x: PairView| x == p || s.contains(x) implies #[trigger] r.contains(x) by {
            if x == p {
                assert(r[0] == x);
            } else {
                let j = choose|j: int| 0 <= j < s.len() && s[j] == x;
                assert(r[j + 1] == x);
            }
        }
    }
}

proof fn lemma_insert_sorted_sorted(p: PairView, s: Seq<PairView>)
    requires
        pairs_sorted(s),
    ensures
        pairs_sorted(spec_insert_sorted(p, s)),
    decreases s.len(),
{
    if s.len() == 0 {
    } else if lex_le(pair_key(s[0]), pair_key(p)) {
        let t = s.drop_first();
        assert(pairs_sorted(t)) by {
            assert(forall|i: int| 0 <= i < t.len() ==> #[trigger] t[i] == s[i + 1]);
        }
        lemma_insert_sorted_sorted(p, t);
        lemma_insert_sorted_elems(p, t);
        let r = seq![s[0]] + spec_insert_sorted(p, t);
        assert forall|i: int, j: int|
            0 <= i < j < r.len() implies lex_le(pair_key(#[trigger] r[i]), pair_key(
            #[trigger] r[j])) by {
            if i == 0 {
                let x = r[j];
                assert(spec_insert_sorted(p, t)[j - 1] == x);
                assert(spec_insert_sorted(p, t).contains(x));
                if x == p {
                    assert(lex_le(pair_key(s[0]), pair_key(p)));
                } else {
                    let m = choose|m: int| 0 <= m < t.len() && t[m] == x;
                    assert(s[m + 1] == x);
                    assert(lex_le(pair_key(s[0]), pair_key(s[m + 1])));
                }
            } else {
                assert(spec_insert_sorted(p, t)[i - 1] == r[i]);
                assert(spec_insert_sorted(p, t)[j - 1] == r[j]);
            }
        }
    } else {
        crate::text::lemma_lex_le_total(pair_key(s[0]), pair_key(p));
        let r = seq![p] + s;
        assert forall|i: int, j: int|
            0 <= i < j < r.len() implies lex_le(pair_key(#[trigger] r[i]), pair_key(
            #[trigger] r[j])) by {
            if i == 0 {
                assert(s[j - 1] == r[j]);
                if j > 1 {
                    assert(lex_le(pair_key(s[0]), pair_key(s[j - 1])));
                    crate::text::lemma_lex_le_trans(
                        pair_key(p),
                        pair_key(s[0]),
                        pair_key(s[j - 1]),
                    );
                }
            } else {
                assert(s[i - 1] == r[i]);
                assert(s[j - 1] == r[j]);
            }
        }
    }
}

/// The sorted pair list is ordered by shared base name.
pub proof fn lemma_sort_pairs_sorted(s: Seq<PairView>)
    ensures
        pairs_sorted(spec_sort_pairs(s)),
    decreases s.len(),
{
    if s.len() > 0 {
        lemma_sort_pairs_sorted(s.drop_last());
        lemma_insert_sorted_sorted(s.last(), spec_sort_pairs(s.drop_last()));
    }
}

/// Sorting neither adds nor drops pairs.
pub proof fn lemma_sort_pairs_elems(s: Seq<PairView>)
    ensures
        forall|x: PairView| #[trigger] spec_sort_pairs(s).contains(x) <==> s.contains(x),
    decreases s.len(),
{
    if s.len() > 0 {
        let t = s.drop_last();
        lemma_sort_pairs_elems(t);
        lemma_insert_sorted_elems(s.last(), spec_sort_pairs(t));
        assert forall|x: PairView| #[trigger] spec_sort_pairs(s).contains(x) implies s.contains(x) by {
            if x == s.last() {
                assert(s[s.len() - 1] == x);
            } else {
                assert(t.contains(x));
                let j = choose|j: int| 0 <= j < t.len() && t[j] == x;
                assert(s[j] == x);
            }
        }
        assert forall|x: PairView| #[trigger] s.contains(x) implies spec_sort_pairs(s).contains(x) by {
            let j = choose|j: int| 0 <= j < s.len() && s[j] == x;
            if j == s.len() - 1 {
                assert(x == s.last());
            } else {
                assert(t[j] == x);
                assert(t.contains(x));
            }
        }
    }
}

proof fn lemma_insert_sorted_multiset(p: PairView, s: Seq<PairView>)
    ensures
        spec_insert_sorted(p, s).to_multiset() == s.to_multiset().insert(p),
    decreases s.len(),
{
    broadcast use vstd::seq_lib::group_to_multiset_ensures;
    broadcast use vstd::multiset::group_multiset_axioms;

    if s.len() == 0 {
        assert(seq![p] =~= Seq::<PairView>::empty().push(p));
        assert(spec_insert_sorted(p, s).to_multiset() =~= s.to_multiset().insert(p));
    } else if lex_le(pair_key(s[0]), pair_key(p)) {
        let t = s.drop_first();
        lemma_insert_sorted_multiset(p, t);
        vstd::seq_lib::lemma_multiset_commutative(seq![s[0]], spec_insert_sorted(p, t));
        vstd::seq_lib::lemma_multiset_commutative(seq![s[0]], t);
        assert(s =~= seq![s[0]] + t);
        assert(spec_insert_sorted(p, s).to_multiset() =~= s.to_multiset().insert(p));
    } else {
        vstd::seq_lib::lemma_multiset_commutative(seq![p], s);
        assert(seq![p] =~= Seq::<PairView>::empty().push(p));
        assert(spec_insert_sorted(p, s).to_multiset() =~= s.to_multiset().insert(p));
    }
}

/// Sorting permutes the pairs: each one appears in the sorted list
/// exactly as often as it was discovered.
pub proof fn lemma_sort_pairs_permutation(s: Seq<PairView>)
    ensures
        spec_sort_pairs(s).to_multiset() == s.to_multiset(),
    decreases s.len(),
{
    broadcast use vstd::seq_lib::group_to_multiset_ensures;

    if s.len() > 0 {
        let t = s.drop_last();
        lemma_sort_pairs_permutation(t);
        lemma_insert_sorted_multiset(s.last(), spec_sort_pairs(t));
        assert(s =~= t.push(s.last()));
    }
}

proof fn lemma_lookup_image_found(paths: Seq<Seq<char>>, name: Seq<char>)
    ensures
        match spec_lookup_image(paths, name) {
            Some(p) => paths.contains(p) && spec_is_image_file(p) && spec_file_name(p) == name,
            None => true,
        },
    decreases paths.len(),
{
    if paths.len() > 0 {
        if spec_is_image_file(paths.last()) && spec_file_name(paths.last()) == name {
            assert(paths[paths.len() - 1] == paths.last());
        } else {
            lemma_lookup_image_found(paths.drop_last(), name);
            let t = paths.drop_last();
            match spec_lookup_image(t, name) {
                Some(p) => {
                    let j = choose|j: int| 0 <= j < t.len() && t[j] == p;
                    assert(paths[j] == p);
                },
                None => {},
            }
        }
    }
}

proof fn lemma_raw_pairs_well_formed(paths1: Seq<Seq<char>>, paths2: Seq<Seq<char>>)
    ensures
        forall|k: int|
            0 <= k < spec_raw_pairs(paths1, paths2).len() ==> {
                let pv = #[trigger] spec_raw_pairs(paths1, paths2)[k];
                &&& spec_is_image_file(pv.path1)
                &&& spec_is_image_file(pv.path2)
                &&& spec_file_name(pv.path1) == spec_file_name(pv.path2)
            },
    decreases paths2.len(),
{
    if paths2.len() > 0 {
        lemma_raw_pairs_well_formed(paths1, paths2.drop_last());
        lemma_lookup_image_found(paths1, spec_file_name(paths2.last()));
        let rest = spec_raw_pairs(paths1, paths2.drop_last());
        let raw = spec_raw_pairs(paths1, paths2);
        assert forall|k: int| 0 <= k < raw.len() implies {
            let pv = #[trigger] raw[k];
            &&& spec_is_image_file(pv.path1)
            &&& spec_is_image_file(pv.path2)
            &&& spec_file_name(pv.path1) == spec_file_name(pv.path2)
        } by {
            if k < rest.len() {
                assert(raw[k] == rest[k]);
            }
        }
    }
}

/// Every matched pair joins two recognized image files that share an
/// exact, case-sensitive base name. In particular a file whose extension
/// is not on the allow-list is never matched, whatever its name, and
/// files whose base names differ in case are never matched to each other.
pub proof fn lemma_pairs_well_formed(paths1: Seq<Seq<char>>, paths2: Seq<Seq<char>>)
    ensures
        forall|k: int|
            0 <= k < spec_sort_pairs(spec_raw_pairs(paths1, paths2)).len() ==> {
                let pv = #[trigger] spec_sort_pairs(spec_raw_pairs(paths1, paths2))[k];
                &&& spec_is_image_file(pv.path1)
                &&& spec_is_image_file(pv.path2)
                &&& spec_file_name(pv.path1) == spec_file_name(pv.path2)
            },
{
    let raw = spec_raw_pairs(paths1, paths2);
    let sorted = spec_sort_pairs(raw);
    lemma_raw_pairs_well_formed(paths1, paths2);
    lemma_sort_pairs_elems(raw);
    assert forall|k: int| 0 <= k < sorted.len() implies {
        let pv = #[trigger] sorted[k];
        &&& spec_is_image_file(pv.path1)
        &&& spec_is_image_file(pv.path2)
        &&& spec_file_name(pv.path1) == spec_file_name(pv.path2)
    } by {
        let pv = sorted[k];
        assert(sorted.contains(pv));
        assert(raw.contains(pv));
        let j = choose|j: int| 0 <= j < raw.len() && raw[j] == pv;
    }
}

proof fn lemma_lookup_image_some(paths: Seq<Seq<char>>, name: Seq<char>, i: int)
    requires
        0 <= i < paths.len(),
        spec_is_image_file(paths[i]),
        spec_file_name(paths[i]) == name,
    ensures
        spec_lookup_image(paths, name) is Some,
    decreases paths.len(),
{
    if !(spec_is_image_file(paths.last()) && spec_file_name(paths.last()) == name) {
        assert(i < paths.len() - 1);
        assert(paths.drop_last()[i] == paths[i]);
        lemma_lookup_image_some(paths.drop_last(), name, i);
    }
}

proof fn lemma_raw_pairs_match(paths1: Seq<Seq<char>>, paths2: Seq<Seq<char>>, j: int)
    requires
        0 <= j < paths2.len(),
        spec_is_image_file(paths2[j]),
        spec_lookup_image(paths1, spec_file_name(paths2[j])) is Some,
    ensures
        exists|k: int|
            0 <= k < spec_raw_pairs(paths1, paths2).len() && #[trigger] spec_raw_pairs(
                paths1,
                paths2,
            )[k].path2 == paths2[j],
    decreases paths2.len(),
{
    let raw = spec_raw_pairs(paths1, paths2);
    if j == paths2.len() - 1 {
        assert(paths2.last() == paths2[j]);
        let rest = spec_raw_pairs(paths1, paths2.drop_last());
        assert(raw[rest.len() as int].path2 == paths2[j]);
    } else {
        assert(paths2.drop_last()[j] == paths2[j]);
        lemma_raw_pairs_match(paths1, paths2.drop_last(), j);
        let rest = spec_raw_pairs(paths1, paths2.drop_last());
        let k = choose|k: int| 0 <= k < rest.len() && #[trigger] rest[k].path2 == paths2[j];
        assert(raw[k] == rest[k]) by {
            if spec_is_image_file(paths2.last()) {
                match spec_lookup_image(paths1, spec_file_name(paths2.last())) {
                    Some(_) => {},
                    None => {},
                }
            }
        }
        assert(raw[k].path2 == paths2[j]);
    }
}

/// Two image files, one per tree, with exactly equal base names always
/// produce a matched pair carrying the second tree's file.
pub proof fn lemma_equal_names_match(
    paths1: Seq<Seq<char>>,
    paths2: Seq<Seq<char>>,
    i: int,
    j: int,
)
    requires
        0 <= i < paths1.len(),
        0 <= j < paths2.len(),
        spec_is_image_file(paths1[i]),
        spec_is_image_file(paths2[j]),
        spec_file_name(paths1[i]) == spec_file_name(paths2[j]),
    ensures
        exists|k: int|
            0 <= k < spec_sort_pairs(spec_raw_pairs(paths1, paths2)).len() && #[trigger]
                spec_sort_pairs(spec_raw_pairs(paths1, paths2))[k].path2 == paths2[j],
{
    let raw = spec_raw_pairs(paths1, paths2);
    let sorted = spec_sort_pairs(raw);
    lemma_lookup_image_some(paths1, spec_file_name(paths2[j]), i);
    lemma_raw_pairs_match(paths1, paths2, j);
    lemma_sort_pairs_elems(raw);
    let k = choose|k: int| 0 <= k < raw.len() && #[trigger] raw[k].path2 == paths2[j];
    assert(raw.contains(raw[k]));
    assert(sorted.contains(raw[k]));
    let m = choose|m: int| 0 <= m < sorted.len() && sorted[m] == raw[k];
    assert(sorted[m].path2 == paths2[j]);
}

} // verus!
