//! Paths as sequences of components, and the mirroring of an input tree into
//! an output tree.
//!
//! A path is held as its components in order: the root directory is the
//! component `/`, the current and parent directories are `.` and `..`, and
//! every other component is a plain name.

use vstd::prelude::*;
use vstd::string::*;
use crate::text::str_equal;

verus! {

/// A file-system path, held as its components.
#[derive(Clone, Debug)]
pub struct FsPath {
    pub parts: Vec<String>,
}

/// The components of `v` as character sequences.
pub open spec fn parts_view(v: Seq<String>) -> Seq<Seq<char>> {
    Seq::new(v.len(), |i: int| v[i]@)
}

impl View for FsPath {
    type V = Seq<Seq<char>>;

    open spec fn view(&self) -> Seq<Seq<char>> {
        parts_view(self.parts@)
    }
}

/// The error of `mirror_path`: the path does not lie under the input root.
#[derive(PartialEq, Eq, Structural, Clone, Copy, Debug)]
pub enum PathError {
    NotUnderRoot,
}

/// `p` starts with the components of `root`.
pub open spec fn is_under(root: Seq<Seq<char>>, p: Seq<Seq<char>>) -> bool {
    root.len() <= p.len() && p.subrange(0, root.len() as int) == root
}

/// The path that `p` takes once `base_in` is replaced by `base_out`.
pub open spec fn mirrored(base_in: Seq<Seq<char>>, base_out: Seq<Seq<char>>, p: Seq<Seq<char>>) -> Seq<Seq<char>> {
    base_out + p.skip(base_in.len() as int)
}

/// The directory that holds `p`; the empty path where there is none.
pub open spec fn parent_of(p: Seq<Seq<char>>) -> Seq<Seq<char>> {
    if p.len() == 0 { p } else { p.drop_last() }
}

pub open spec fn is_special_component(c: Seq<char>) -> bool {
    c == seq!['/'] || c == seq!['.'] || c == seq!['.', '.']
}

/// The last component of `p` where it is a plain name.
pub open spec fn file_name_of(p: Seq<Seq<char>>) -> Option<Seq<char>> {
    if p.len() > 0 && !is_special_component(p.last()) { Some(p.last()) } else { None }
}

/// The index of the last `.` in `s`, or -1.
pub open spec fn last_dot(s: Seq<char>) -> int
    decreases s.len(),
{
    if s.len() == 0 {
        -1
    } else if s.last() == '.' {
        s.len() - 1
    } else {
        last_dot(s.drop_last())
    }
}

/// The extension of a file name: what follows its last dot, where that dot
/// is not the name's first character.
pub open spec fn extension_of(name: Seq<char>) -> Option<Seq<char>> {
    if last_dot(name) <= 0 { None } else { Some(name.skip(last_dot(name) + 1)) }
}

/// A file name without its extension.
pub open spec fn stem_of(name: Seq<char>) -> Seq<char> {
    if last_dot(name) <= 0 { name } else { name.take(last_dot(name)) }
}

proof fn lemma_last_dot_bounds(s: Seq<char>)
    ensures
        -1 <= last_dot(s) < s.len(),
        last_dot(s) >= 0 ==> s[last_dot(s)] == '.',
    decreases s.len(),
{
    if s.len() > 0 && s.last() != '.' {
        lemma_last_dot_bounds(s.drop_last());
    }
}

/// The index of the last `.` in `s`.
pub fn last_dot_index(s: &str) -> (r: Option<usize>)
    ensures
        r is None <==> last_dot(s@) == -1,
        r matches Some(k) ==> k == last_dot(s@),
{
    let n = s.unicode_len();
    let mut i: usize = n;
    proof {
        lemma_take_full(s@);
    }
    while i > 0
        invariant
            i <= n == s@.len(),
            last_dot(s@) == last_dot(s@.take(i as int)),
        decreases i,
    {
        assert(s@.take(i as int).drop_last() =~= s@.take(i - 1));
        if s.get_char(i - 1) == '.' {
            return Some(i - 1);
        }
        i = i - 1;
    }
    proof {
        assert(s@.take(0) =~= Seq::<char>::empty());
    }
    None
}

proof fn lemma_take_full(s: Seq<char>)
    ensures
        s.take(s.len() as int) == s,
{
    assert(s.take(s.len() as int) =~= s);
}

impl FsPath {
    /// The first `keep` components of this path.
    pub fn prefix(&self, keep: usize) -> (r: FsPath)
        requires
            keep <= self@.len(),
        ensures
            r@ == self@.take(keep as int),
    {
        let mut parts: Vec<String> = Vec::new();
        let mut i: usize = 0;
        while i < keep
            invariant
                keep <= self.parts.len(),
                i <= keep,
                parts@.len() == i,
                parts_view(parts@) == self@.take(i as int),
            decreases keep - i,
        {
            parts.push(self.parts[i].clone());
            assert(parts_view(parts@) =~= self@.take(i + 1));
            i = i + 1;
        }
        FsPath { parts }
    }

    /// A copy of this path.
    pub fn copy(&self) -> (r: FsPath)
        ensures
            r@ == self@,
    {
        let r = self.prefix(self.parts.len());
        assert(self@.take(self@.len() as int) =~= self@);
        r
    }

    /// The directory that holds this path; the empty path where there is none.
    pub fn parent(&self) -> (r: FsPath)
        ensures
            r@ == parent_of(self@),
    {
        let n = self.parts.len();
        let keep: usize = if n == 0 { 0 } else { n - 1 };
        let r = self.prefix(keep);
        assert(r@ =~= parent_of(self@));
        r
    }

    /// The last component, where it is a plain name.
    pub fn file_name(&self) -> (r: Option<&str>)
        ensures
            r matches Some(s) ==> file_name_of(self@) == Some(s@),
            r is None ==> file_name_of(self@) is None,
    {
        let n = self.parts.len();
        if n == 0 {
            return None;
        }
        let last = self.parts[n - 1].as_str();
        proof {
            assert(self@.last() == last@);
            reveal_strlit("/");
            reveal_strlit(".");
            reveal_strlit("..");
            assert("/"@ =~= seq!['/']);
            assert("."@ =~= seq!['.']);
            assert(".."@ =~= seq!['.', '.']);
        }
        if str_equal(last, "/") || str_equal(last, ".") || str_equal(last, "..") {
            None
        } else {
            Some(last)
        }
    }
}

/// The output path of `path_in`: `base_in` replaced by `base_out` over their
/// shared prefix. Fails where `path_in` does not lie under `base_in`.
pub fn mirror_path(base_in: &FsPath, base_out: &FsPath, path_in: &FsPath) -> (r: Result<FsPath, PathError>)
    ensures
        r is Ok <==> is_under(base_in@, path_in@),
        r matches Ok(p) ==> p@ == mirrored(base_in@, base_out@, path_in@),
        r matches Err(e) ==> e == PathError::NotUnderRoot,
{
    let k = base_in.parts.len();
    let n = path_in.parts.len();
    if k > n {
        return Err(PathError::NotUnderRoot);
    }
    let mut i: usize = 0;
    while i < k
        invariant
            k == base_in.parts.len(),
            k <= n == path_in.parts.len(),
            i <= k,
            path_in@.subrange(0, i as int) == base_in@.subrange(0, i as int),
        decreases k - i,
    {
        if base_in.parts[i] != path_in.parts[i] {
            assert(path_in@.subrange(0, k as int)[i as int] != base_in@[i as int]);
            return Err(PathError::NotUnderRoot);
        }
        assert(path_in@.subrange(0, i + 1) =~= path_in@.subrange(0, i as int).push(path_in@[i as int]));
        assert(base_in@.subrange(0, i + 1) =~= base_in@.subrange(0, i as int).push(base_in@[i as int]));
        i = i + 1;
    }
    assert(base_in@ =~= base_in@.subrange(0, k as int));
    let mut parts: Vec<String> = Vec::new();
    let mut j: usize = 0;
    let m = base_out.parts.len();
    while j < m
        invariant
            m == base_out.parts.len(),
            j <= m,
            parts@.len() == j,
            parts_view(parts@) == base_out@.take(j as int),
        decreases m - j,
    {
        parts.push(base_out.parts[j].clone());
        assert(parts_view(parts@) =~= base_out@.take(j + 1));
        j = j + 1;
    }
    proof {
        assert forall|q: int| 0 <= q < m implies parts@[q]@ == base_out@[q] by {
            assert(parts_view(parts@)[q] == parts@[q]@);
        }
    }
    let mut t: usize = k;
    while t < n
        invariant
            k <= t <= n == path_in.parts.len(),
            m == base_out.parts.len(),
            parts@.len() == m + (t - k),
            forall|q: int| 0 <= q < m ==> parts@[q]@ == base_out@[q],
            forall|q: int| m <= q < parts@.len() ==> parts@[q]@ == path_in@[k + q - m],
        decreases n - t,
    {
        parts.push(path_in.parts[t].clone());
        t = t + 1;
    }
    let r = FsPath { parts };
    assert(r@ =~= mirrored(base_in@, base_out@, path_in@));
    Ok(r)
}

/// The extension of a file name, where it has one.
pub fn extension(name: &str) -> (r: Option<&str>)
    ensures
        r matches Some(x) ==> extension_of(name@) == Some(x@),
        r is None ==> extension_of(name@) is None,
{
    proof {
        lemma_last_dot_bounds(name@);
    }
    match last_dot_index(name) {
        Some(k) if k > 0 => {
            let n = name.unicode_len();
            Some(name.substring_char(k + 1, n))
        },
        _ => None,
    }
}

/// The extension of a file name, empty where it has none.
pub fn extension_or_empty(name: &str) -> (r: &str)
    ensures
        extension_of(name@) matches Some(e) ==> r@ == e,
        extension_of(name@) is None ==> r@ == Seq::<char>::empty(),
{
    proof {
        lemma_last_dot_bounds(name@);
    }
    match last_dot_index(name) {
        Some(k) if k > 0 => {
            let n = name.unicode_len();
            name.substring_char(k + 1, n)
        },
        _ => {
            let e = name.substring_char(0, 0);
            assert(e@ =~= Seq::<char>::empty());
            e
        },
    }
}

/// A file name without its extension.
pub fn stem(name: &str) -> (r: &str)
    ensures
        r@ == stem_of(name@),
{
    proof {
        lemma_last_dot_bounds(name@);
        lemma_take_full(name@);
    }
    match last_dot_index(name) {
        Some(k) if k > 0 => name.substring_char(0, k),
        _ => {
            let n = name.unicode_len();
            name.substring_char(0, n)
        },
    }
}

} // verus!
