//! The discovered file set: entries of a directory walk, bounded by depth and
//! filtered by extension.

use vstd::prelude::*;
use crate::paths::{extension, extension_of, file_name_of, FsPath};
use crate::text::{lower_of, lowercase};

verus! {

/// One entry met by a directory walk.
pub struct PathEntry {
    pub path: FsPath,
    /// Number of directories between the walk's root and this entry; the root is at 0.
    pub depth: usize,
    /// The entry is a regular file.
    pub is_file: bool,
}

/// The entries of `s` that lie no deeper than `max_depth`, in order.
pub open spec fn entries_within_depth(s: Seq<PathEntry>, max_depth: usize) -> Seq<PathEntry>
    decreases s.len(),
{
    if s.len() == 0 {
        Seq::empty()
    } else {
        let rest = entries_within_depth(s.drop_last(), max_depth);
        if s.last().depth <= max_depth { rest.push(s.last()) } else { rest }
    }
}

/// `e` is a file whose extension, lower-cased, is one of `exts` lower-cased.
pub open spec fn has_wanted_extension(e: PathEntry, exts: Seq<Seq<char>>) -> bool {
    &&& e.is_file
    &&& file_name_of(e.path@) matches Some(n)
    &&& extension_of(n) matches Some(x)
    &&& exists|i: int| 0 <= i < exts.len() && lower_of(exts[i]) == lower_of(x)
}

/// The paths of the entries of `s` that `has_wanted_extension` keeps, in order.
pub open spec fn with_extensions(s: Seq<PathEntry>, exts: Seq<Seq<char>>) -> Seq<Seq<Seq<char>>>
    decreases s.len(),
{
    if s.len() == 0 {
        Seq::empty()
    } else {
        let rest = with_extensions(s.drop_last(), exts);
        if has_wanted_extension(s.last(), exts) { rest.push(s.last().path@) } else { rest }
    }
}

pub open spec fn paths_view(v: Seq<FsPath>) -> Seq<Seq<Seq<char>>> {
    Seq::new(v.len(), |i: int| v[i]@)
}

pub open spec fn strings_view(v: Seq<String>) -> Seq<Seq<char>> {
    Seq::new(v.len(), |i: int| v[i]@)
}

impl PathEntry {
    /// A copy of this entry.
    pub fn copy(&self) -> (r: PathEntry)
        ensures
            r.path@ == self.path@,
            r.depth == self.depth,
            r.is_file == self.is_file,
    {
        PathEntry { path: self.path.copy(), depth: self.depth, is_file: self.is_file }
    }
}

/// The entries of a walk (in the walk's order) that lie no deeper than
/// `max_depth` below its root.
pub fn get_path_tree(walk: &Vec<PathEntry>, max_depth: usize) -> (r: Vec<PathEntry>)
    ensures
        r@.len() == entries_within_depth(walk@, max_depth).len(),
        forall|i: int| 0 <= i < r@.len() ==> {
            &&& #[trigger] r@[i].path@ == entries_within_depth(walk@, max_depth)[i].path@
            &&& r@[i].depth == entries_within_depth(walk@, max_depth)[i].depth
            &&& r@[i].is_file == entries_within_depth(walk@, max_depth)[i].is_file
        },
{
    let mut r: Vec<PathEntry> = Vec::new();
    let mut i: usize = 0;
    while i < walk.len()
        invariant
            i <= walk@.len(),
            r@.len() == entries_within_depth(walk@.take(i as int), max_depth).len(),
            forall|k: int| 0 <= k < r@.len() ==> {
                &&& #[trigger] r@[k].path@ == entries_within_depth(walk@.take(i as int), max_depth)[k].path@
                &&& r@[k].depth == entries_within_depth(walk@.take(i as int), max_depth)[k].depth
                &&& r@[k].is_file == entries_within_depth(walk@.take(i as int), max_depth)[k].is_file
            },
        decreases walk@.len() - i,
    {
        let ghost before = entries_within_depth(walk@.take(i as int), max_depth);
        assert(walk@.take(i + 1).drop_last() =~= walk@.take(i as int));
        assert(walk@.take(i + 1).last() == walk@[i as int]);
        if walk[i].depth <= max_depth {
            r.push(walk[i].copy());
            assert(entries_within_depth(walk@.take(i + 1), max_depth) == before.push(walk@[i as int]));
        } else {
            assert(entries_within_depth(walk@.take(i + 1), max_depth) == before);
        }
        i = i + 1;
    }
    assert(walk@.take(walk@.len() as int) =~= walk@);
    r
}

/// Whether `lowered` is one of `allowed`.
pub fn extension_allowed(lowered: &str, allowed: &Vec<String>) -> (r: bool)
    ensures
        r == exists|i: int| 0 <= i < allowed@.len() && allowed@[i]@ == lowered@,
{
    let mut i: usize = 0;
    while i < allowed.len()
        invariant
            i <= allowed@.len(),
            forall|k: int| 0 <= k < i ==> allowed@[k]@ != lowered@,
        decreases allowed@.len() - i,
    {
        if crate::text::str_equal(allowed[i].as_str(), lowered) {
            return true;
        }
        i = i + 1;
    }
    false
}

/// The paths of the files of `paths` whose extension is one of `extensions`,
/// letter case aside, in order.
pub fn filter_pathtree_types(paths: &Vec<PathEntry>, extensions: &Vec<String>) -> (r: Vec<FsPath>)
    ensures
        paths_view(r@) == with_extensions(paths@, strings_view(extensions@)),
{
    let ghost exts = strings_view(extensions@);
    let mut allowed: Vec<String> = Vec::new();
    let mut j: usize = 0;
    while j < extensions.len()
        invariant
            j <= extensions@.len(),
            exts == strings_view(extensions@),
            allowed@.len() == j,
            forall|k: int| 0 <= k < j ==> #[trigger] allowed@[k]@ == lower_of(exts[k]),
        decreases extensions@.len() - j,
    {
        allowed.push(lowercase(extensions[j].as_str()));
        j = j + 1;
    }
    let mut r: Vec<FsPath> = Vec::new();
    let mut i: usize = 0;
    while i < paths.len()
        invariant
            i <= paths@.len(),
            exts == strings_view(extensions@),
            allowed@.len() == exts.len(),
            forall|k: int| 0 <= k < exts.len() ==> #[trigger] allowed@[k]@ == lower_of(exts[k]),
            paths_view(r@) == with_extensions(paths@.take(i as int), exts),
        decreases paths@.len() - i,
    {
        assert(paths@.take(i + 1).drop_last() =~= paths@.take(i as int));
        let e = &paths[i];
        let keep = if e.is_file {
            match e.path.file_name() {
                Some(n) => match extension(n) {
                    Some(x) => {
                        let lowered = lowercase(x);
                        let found = extension_allowed(lowered.as_str(), &allowed);
                        proof {
                            if found {
                                let k = choose|k: int| 0 <= k < allowed@.len() && allowed@[k]@ == lowered@;
                                assert(lower_of(exts[k]) == lower_of(x@));
                            }
                            if has_wanted_extension(*e, exts) {
                                let k = choose|k: int| 0 <= k < exts.len() && lower_of(exts[k]) == lower_of(x@);
                                assert(allowed@[k]@ == lowered@);
                            }
                        }
                        found
                    },
                    None => false,
                },
                None => false,
            }
        } else {
            false
        };
        assert(keep == has_wanted_extension(*e, exts));
        if keep {
            r.push(e.path.copy());
        }
        assert(paths_view(r@) =~= with_extensions(paths@.take(i + 1), exts));
        i = i + 1;
    }
    assert(paths@.take(paths@.len() as int) =~= paths@);
    r
}

/// How far `p` is indented in a listing: its number of components, not
/// counting a leading `.`.
pub open spec fn listing_depth(p: Seq<Seq<char>>) -> nat {
    if p.len() > 0 && p[0] == seq!['.'] { (p.len() - 1) as nat } else { p.len() }
}

/// How far `p` is indented in a listing of the discovered files.
pub fn tree_depth(p: &FsPath) -> (r: usize)
    ensures
        r == listing_depth(p@),
{
    proof {
        reveal_strlit(".");
        assert("."@ =~= seq!['.']);
    }
    let n = p.parts.len();
    if n > 0 && crate::text::str_equal(p.parts[0].as_str(), ".") {
        n - 1
    } else {
        n
    }
}

/// Whether an entry at `depth` is listed; a `max_depth` of 0 lists everything.
pub fn shown_in_tree(depth: usize, max_depth: usize) -> (r: bool)
    ensures
        r == (max_depth == 0 || depth <= max_depth),
{
    max_depth == 0 || depth <= max_depth
}

} // verus!
