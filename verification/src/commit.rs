//! Collision-safe commit naming and the metadata-merge policy. A commit
//! copies a chosen source file into the output folder under its own base
//! name; when that name is taken, the first free alternative `stem_N` (N =
//! 1, 2, ...), with the extension re-attached, is used instead, so no
//! committed file is ever overwritten. The copying itself, being I/O, is
//! the caller's; the library resolves the destination name from the names
//! already present and fixes the merge policy for donor metadata.

use crate::file_manager::{str_views, FileManager};
use crate::text::{
    file_name_of, lemma_decimal_injective, spec_decimal, spec_extension, spec_file_name,
    spec_stem, split_name, u64_decimal,
};
use vstd::prelude::*;
use vstd::relations::injective_on;
use vstd::seq_lib::seq_to_set_is_finite;
use vstd::set_lib::{lemma_int_range, lemma_len_subset, lemma_map_size, set_int_range};

verus! {

/// The extension of a base file name, or the empty sequence when it has
/// none: the suffixing rule treats the two alike.
pub open spec fn spec_ext_or_empty(name: Seq<char>) -> Seq<char> {
    match spec_extension(name) {
        Some(e) => e,
        None => Seq::empty(),
    }
}

/// The N-th alternative for a colliding base name: `stem_N`, with `.` and
/// the extension re-attached when there is one.
pub open spec fn spec_candidate(stem: Seq<char>, ext: Seq<char>, n: nat) -> Seq<char> {
    if ext.len() == 0 {
        stem + "_"@ + spec_decimal(n)
    } else {
        stem + "_"@ + spec_decimal(n) + "."@ + ext
    }
}

/// Whether `r` is the collision-free destination name for base name
/// `name` among the names already present: `name` itself when free, else
/// the first free alternative `stem_N`, counting from 1. A name once
/// rejected is never reused.
pub open spec fn spec_is_resolution(
    name: Seq<char>,
    existing: Seq<Seq<char>>,
    r: Seq<char>,
) -> bool {
    let stem = spec_stem(name);
    let ext = spec_ext_or_empty(name);
    if !existing.contains(name) {
        r == name
    } else {
        exists|n: nat|
            1 <= n && r == #[trigger] spec_candidate(stem, ext, n) && !existing.contains(
                spec_candidate(stem, ext, n),
            ) && forall|m: nat|
                1 <= m < n ==> existing.contains(#[trigger] spec_candidate(stem, ext, m))
    }
}

/// Alternative names with distinct counters are distinct.
proof fn lemma_candidate_injective(stem: Seq<char>, ext: Seq<char>, a: nat, b: nat)
    requires
        spec_candidate(stem, ext, a) == spec_candidate(stem, ext, b),
    ensures
        a == b,
{
    let ca = spec_candidate(stem, ext, a);
    let da = spec_decimal(a);
    let db = spec_decimal(b);
    if ext.len() == 0 {
        assert(ca == stem + "_"@ + da);
        assert(ca == stem + "_"@ + db);
    } else {
        assert(ca == stem + "_"@ + da + "."@ + ext);
        assert(ca == stem + "_"@ + db + "."@ + ext);
    }
    assert(da.len() == db.len());
    let lo = stem.len() + "_"@.len() as int;
    assert forall|i: int| 0 <= i < da.len() implies da[i] == db[i] by {
        assert(ca[lo + i] == da[i]);
        assert(ca[lo + i] == db[i]);
    }
    assert(da =~= db);
    lemma_decimal_injective(a, b);
}

/// Every suffixed alternative is strictly longer than the base name it
/// was formed from, so it never equals that name.
proof fn lemma_candidate_longer(name: Seq<char>, m: nat)
    ensures
        spec_candidate(spec_stem(name), spec_ext_or_empty(name), m).len() > name.len(),
{
    reveal_strlit("_");
    reveal_strlit(".");
    assert(spec_decimal(m).len() >= 1) by {
        if m < 10 {
        }
    }
    crate::text::lemma_last_index_bounds(name, '.');
    match crate::text::spec_last_index_of(name, '.') {
        Some(i) => {
            if i >= 1 {
                assert(spec_stem(name).len() == i);
                assert(spec_ext_or_empty(name).len() == name.len() - i - 1);
            }
        },
        None => {},
    }
}

/// The resolution predicate pins the destination name: no two names
/// satisfy it for the same base name and the same set of present names.
pub proof fn lemma_resolution_unique(
    name: Seq<char>,
    existing: Seq<Seq<char>>,
    r1: Seq<char>,
    r2: Seq<char>,
)
    requires
        spec_is_resolution(name, existing, r1),
        spec_is_resolution(name, existing, r2),
    ensures
        r1 == r2,
{
    let stem = spec_stem(name);
    let ext = spec_ext_or_empty(name);
    if existing.contains(name) {
        let n1 = choose|n: nat|
            1 <= n && r1 == #[trigger] spec_candidate(stem, ext, n) && !existing.contains(
                spec_candidate(stem, ext, n),
            ) && forall|m: nat|
                1 <= m < n ==> existing.contains(#[trigger] spec_candidate(stem, ext, m));
        let n2 = choose|n: nat|
            1 <= n && r2 == #[trigger] spec_candidate(stem, ext, n) && !existing.contains(
                spec_candidate(stem, ext, n),
            ) && forall|m: nat|
                1 <= m < n ==> existing.contains(#[trigger] spec_candidate(stem, ext, m));
        if n1 < n2 {
            assert(existing.contains(spec_candidate(stem, ext, n1)));
        } else if n2 < n1 {
            assert(existing.contains(spec_candidate(stem, ext, n2)));
        }
    }
}

/// If the base name and its alternatives numbered 1 through `n` are all
/// present, there are more than `n` names present: all of them are
/// pairwise distinct.
proof fn lemma_candidates_bound(name: Seq<char>, existing: Seq<Seq<char>>, n: nat)
    requires
        existing.contains(name),
        forall|m: nat|
            1 <= m <= n ==> existing.contains(
                #[trigger] spec_candidate(spec_stem(name), spec_ext_or_empty(name), m),
            ),
    ensures
        n < existing.len(),
{
    broadcast use seq_to_set_is_finite;

    let stem = spec_stem(name);
    let ext = spec_ext_or_empty(name);
    let f = |m: int|
        if m == 0 {
            name
        } else {
            spec_candidate(stem, ext, m as nat)
        };
    let dom = set_int_range(0, n as int + 1);
    lemma_int_range(0, n as int + 1);
    assert(injective_on(f, dom)) by {
        assert forall|m1: int, m2: int|
            #![trigger f(m1), f(m2)]
            dom.contains(m1) && dom.contains(m2) && f(m1) == f(m2) implies m1 == m2 by {
            if m1 == 0 && m2 > 0 {
                lemma_candidate_longer(name, m2 as nat);
            } else if m2 == 0 && m1 > 0 {
                lemma_candidate_longer(name, m1 as nat);
            } else if m1 > 0 && m2 > 0 {
                lemma_candidate_injective(stem, ext, m1 as nat, m2 as nat);
            }
        }
    }
    let img = dom.map(f);
    lemma_map_size(dom, img, f);
    assert(img.subset_of(existing.to_set())) by {
        assert forall|x: Seq<char>| img.contains(x) implies existing.to_set().contains(x) by {
            let m = choose|m: int| dom.contains(m) && f(m) == x;
            if m == 0 {
                assert(existing.contains(name));
            } else {
                assert(existing.contains(spec_candidate(stem, ext, m as nat)));
            }
        }
    }
    existing.lemma_cardinality_of_set();
    lemma_len_subset(img, existing.to_set());
}

/// Whether one of the strings reads `name`.
fn contains_name(existing: &Vec<String>, name: &String) -> (r: bool)
    ensures
        r == str_views(existing@).contains(name@),
{
    let ghost vs = str_views(existing@);
    let mut i: usize = 0;
    while i < existing.len()
        invariant
            i <= existing@.len(),
            vs == str_views(existing@),
            vs.len() == existing@.len(),
            forall|j: int| 0 <= j < i ==> vs[j] != name@,
        decreases existing@.len() - i,
    {
        proof {
            assert(vs[i as int] == existing@[i as int]@);
        }
        if existing[i] == *name {
            proof {
                assert(vs.contains(name@)) by {
                    assert(vs[i as int] == name@);
                }
            }
            return true;
        }
        i += 1;
    }
    false
}

spec fn opt_view(o: Option<String>) -> Seq<char> {
    match o {
        Some(s) => s@,
        None => Seq::empty(),
    }
}

fn make_candidate(stem: &String, ext: &Option<String>, n: u64) -> (r: String)
    ensures
        r@ == spec_candidate(stem@, opt_view(*ext), n as nat),
{
    let mut s = stem.clone();
    s.append("_");
    let d = u64_decimal(n);
    s.append(d.as_str());
    match ext {
        Some(e) => {
            if e.unicode_len() > 0 {
                s.append(".");
                s.append(e.as_str());
            }
        },
        None => {},
    }
    s
}

/// The collision-free destination name for a base file name, given the
/// base names already present in the output folder: the name itself when
/// free, else `stem_N` with the smallest free counter.
pub fn resolve_collision_free(file_name: &String, existing: &Vec<String>) -> (r: String)
    ensures
        spec_is_resolution(file_name@, str_views(existing@), r@),
        !str_views(existing@).contains(r@),
{
    let ghost vs = str_views(existing@);
    if !contains_name(existing, file_name) {
        return file_name.clone();
    }
    let (stem, ext_opt) = split_name(file_name.as_str());
    let ghost stemv = spec_stem(file_name@);
    let ghost extv = spec_ext_or_empty(file_name@);
    proof {
        assert(stem@ == stemv);
        assert(opt_view(ext_opt) == extv);
    }
    let cap: usize = existing.len();
    proof {
        let j = choose|j: int| 0 <= j < vs.len() && vs[j] == file_name@;
        assert(vs.len() >= 1);
    }
    let mut n: u64 = 1;
    loop
        invariant
            1 <= n,
            n <= cap,
            cap == existing@.len(),
            vs == str_views(existing@),
            vs.len() == existing@.len(),
            vs.contains(file_name@),
            stem@ == stemv,
            opt_view(ext_opt) == extv,
            stemv == spec_stem(file_name@),
            extv == spec_ext_or_empty(file_name@),
            forall|m: nat| 1 <= m < n ==> vs.contains(#[trigger] spec_candidate(stemv, extv, m)),
        decreases existing@.len() - n,
    {
        let cand = make_candidate(&stem, &ext_opt, n);
        if !contains_name(existing, &cand) {
            return cand;
        }
        proof {
            assert(forall|m: nat|
                1 <= m <= n ==> vs.contains(#[trigger] spec_candidate(stemv, extv, m)));
            lemma_candidates_bound(file_name@, vs, n as nat);
        }
        n += 1;
    }
}

/// Why a commit failed. The library plans the destination; the caller,
/// who performs the copy and the merge, reports an I/O failure with the
/// destination path it was writing.
#[derive(Debug)]
pub enum CommitError {
    /// The source path names no file: it is empty or ends in a separator.
    MissingFileName { path: String },
    /// The copy or the metadata merge failed in the file system.
    CopyFailed { path: String },
}

impl CommitError {
    /// A human-readable report naming the offending path.
    pub fn describe(&self) -> (r: String)
        ensures
            match self {
                CommitError::MissingFileName { path } => r@ == "no file name in path: "@ + path@,
                CommitError::CopyFailed { path } => r@ == "failed to copy to "@ + path@,
            },
    {
        match self {
            CommitError::MissingFileName { path } => {
                let mut s = "no file name in path: ".to_owned();
                s.append(path.as_str());
                s
            },
            CommitError::CopyFailed { path } => {
                let mut s = "failed to copy to ".to_owned();
                s.append(path.as_str());
                s
            },
        }
    }
}

/// Whether `dest` is the planned destination: the collision-free name for
/// `name` among the present names, placed under the output folder.
pub open spec fn spec_is_commit_dest(
    output: Seq<char>,
    name: Seq<char>,
    existing: Seq<Seq<char>>,
    dest: Seq<char>,
) -> bool {
    exists|r: Seq<char>|
        #[trigger] spec_is_resolution(name, existing, r) && dest == output + "/"@ + r
}

impl FileManager {
    /// Plans a commit of `source`: the destination path under the output
    /// folder, the base name suffixed when already present, never
    /// overwriting. Fails exactly when the source path has no base name;
    /// the caller performs the copy and reports its own failure.
    pub fn plan_commit(&self, source: &String, existing: &Vec<String>) -> (r: Result<
        String,
        CommitError,
    >)
        ensures
            match r {
                Ok(dest) => spec_file_name(source@).len() > 0 && spec_is_commit_dest(
                    self.output_folder@,
                    spec_file_name(source@),
                    str_views(existing@),
                    dest@,
                ),
                Err(e) => spec_file_name(source@).len() == 0 && e == (CommitError::MissingFileName {
                    path: *source,
                }),
            },
    {
        let name = file_name_of(source.as_str());
        if name.unicode_len() == 0 {
            return Err(CommitError::MissingFileName { path: source.clone() });
        }
        let resolved = resolve_collision_free(&name, existing);
        let mut dest = self.output_folder.clone();
        dest.append("/");
        dest.append(resolved.as_str());
        proof {
            assert(dest@ == self.output_folder@ + "/"@ + resolved@);
        }
        Ok(dest)
    }
}

/// Committing two sources with the same base name back to back, starting
/// from an empty output folder, writes two distinct names: the base name
/// itself, then the alternative with suffix 1.
pub proof fn lemma_second_commit_suffixed(name: Seq<char>, r1: Seq<char>, r2: Seq<char>)
    requires
        spec_is_resolution(name, Seq::empty(), r1),
        spec_is_resolution(name, seq![r1], r2),
    ensures
        r1 == name,
        r2 == spec_candidate(spec_stem(name), spec_ext_or_empty(name), 1),
        r2 != r1,
{
    let stem = spec_stem(name);
    let ext = spec_ext_or_empty(name);
    assert(!Seq::<Seq<char>>::empty().contains(name));
    assert(seq![r1].contains(name)) by {
        assert(seq![r1][0] == name);
    }
    let n = choose|n: nat|
        1 <= n && r2 == #[trigger] spec_candidate(stem, ext, n) && !seq![r1].contains(
            spec_candidate(stem, ext, n),
        ) && forall|m: nat|
            1 <= m < n ==> seq![r1].contains(#[trigger] spec_candidate(stem, ext, m));
    lemma_candidate_longer(name, 1);
    if n > 1 {
        assert(seq![r1].contains(spec_candidate(stem, ext, 1)));
        let j = choose|j: int| 0 <= j < 1 && seq![r1][j] == spec_candidate(stem, ext, 1);
        assert(r1 == spec_candidate(stem, ext, 1));
    }
}

/// Key-value views of metadata entries.
pub open spec fn kv_views(s: Seq<(String, String)>) -> Seq<(Seq<char>, Seq<char>)> {
    s.map_values(|t: (String, String)| (t.0@, t.1@))
}

/// Whether some entry carries the key.
pub open spec fn spec_has_key(entries: Seq<(Seq<char>, Seq<char>)>, key: Seq<char>) -> bool {
    exists|i: int| 0 <= i < entries.len() && (#[trigger] entries[i]).0 == key
}

/// The destination tags that survive a merge: those whose key the donor
/// does not carry, in their original order.
pub open spec fn spec_kept_tags(
    dest: Seq<(Seq<char>, Seq<char>)>,
    donor: Seq<(Seq<char>, Seq<char>)>,
) -> Seq<(Seq<char>, Seq<char>)> {
    dest.filter(|kv: (Seq<char>, Seq<char>)| !spec_has_key(donor, kv.0))
}

/// The merge policy for donor metadata: a donor tag replaces every
/// same-keyed destination tag; destination tags without a donor
/// counterpart are kept, in order, followed by all donor tags, in order.
pub open spec fn spec_merge_metadata(
    dest: Seq<(Seq<char>, Seq<char>)>,
    donor: Seq<(Seq<char>, Seq<char>)>,
) -> Seq<(Seq<char>, Seq<char>)> {
    spec_kept_tags(dest, donor) + donor
}

/// Whether some entry carries the key.
fn has_key(entries: &Vec<(String, String)>, key: &String) -> (r: bool)
    ensures
        r == spec_has_key(kv_views(entries@), key@),
{
    let ghost vs = kv_views(entries@);
    let mut i: usize = 0;
    while i < entries.len()
        invariant
            i <= entries@.len(),
            vs == kv_views(entries@),
            vs.len() == entries@.len(),
            forall|j: int| 0 <= j < i ==> (#[trigger] vs[j]).0 != key@,
        decreases entries@.len() - i,
    {
        proof {
            assert(vs[i as int] == (entries@[i as int].0@, entries@[i as int].1@));
        }
        if entries[i].0 == *key {
            proof {
                assert((vs[i as int]).0 == key@);
            }
            return true;
        }
        i += 1;
    }
    false
}

/// Merges the donor's metadata into the destination's under the fixed
/// policy: donor tags win per key, kept destination tags come first in
/// their order, then all donor tags in theirs.
pub fn merge_metadata(dest: &Vec<(String, String)>, donor: &Vec<(String, String)>) -> (r: Vec<
    (String, String),
>)
    ensures
        kv_views(r@) == spec_merge_metadata(kv_views(dest@), kv_views(donor@)),
{
    let ghost dv = kv_views(dest@);
    let ghost nv = kv_views(donor@);
    let mut out: Vec<(String, String)> = Vec::new();
    let mut i: usize = 0;
    proof {
        reveal(Seq::filter);
        assert(dv.take(0) =~= Seq::<(Seq<char>, Seq<char>)>::empty());
        assert(kv_views(out@) =~= spec_kept_tags(dv.take(0), nv));
    }
    while i < dest.len()
        invariant
            i <= dest@.len(),
            dv == kv_views(dest@),
            nv == kv_views(donor@),
            dv.len() == dest@.len(),
            kv_views(out@) == spec_kept_tags(dv.take(i as int), nv),
        decreases dest@.len() - i,
    {
        let ghost before = out@;
        proof {
            reveal(Seq::filter);
            assert(dv.take(i + 1).drop_last() =~= dv.take(i as int));
            assert(dv.take(i + 1).last() == dv[i as int]);
            assert(dv[i as int] == (dest@[i as int].0@, dest@[i as int].1@));
        }
        if !has_key(donor, &dest[i].0) {
            let entry = (dest[i].0.clone(), dest[i].1.clone());
            out.push(entry);
            proof {
                reveal(Seq::filter);
                assert(kv_views(out@) =~= kv_views(before).push(dv[i as int]));
                assert(spec_kept_tags(dv.take(i + 1), nv) == spec_kept_tags(
                    dv.take(i as int),
                    nv,
                ).push(dv[i as int]));
            }
        } else {
            proof {
                reveal(Seq::filter);
                assert(spec_kept_tags(dv.take(i + 1), nv) == spec_kept_tags(
                    dv.take(i as int),
                    nv,
                ));
            }
        }
        i += 1;
    }
    proof {
        assert(dv.take(dest@.len() as int) =~= dv);
    }
    let mut j: usize = 0;
    while j < donor.len()
        invariant
            j <= donor@.len(),
            nv == kv_views(donor@),
            nv.len() == donor@.len(),
            kv_views(out@) == spec_kept_tags(kv_views(dest@), nv) + nv.take(j as int),
        decreases donor@.len() - j,
    {
        let ghost before = out@;
        let entry = (donor[j].0.clone(), donor[j].1.clone());
        out.push(entry);
        proof {
            assert(nv[j as int] == (donor@[j as int].0@, donor@[j as int].1@));
            assert(kv_views(out@) =~= kv_views(before).push(nv[j as int]));
            assert(kv_views(before).push(nv[j as int]) =~= spec_kept_tags(kv_views(dest@), nv)
                + nv.take(j + 1));
        }
        j += 1;
    }
    proof {
        assert(nv.take(donor@.len() as int) =~= nv);
    }
    out
}

} // verus!
