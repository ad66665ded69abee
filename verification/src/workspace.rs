//! The heading anchors of the files of a workspace, by path, for checking
//! links into other files.

use vstd::prelude::*;
use crate::text::{chars_of, eq_vec};

verus! {

/// The texts of a list of strings.
pub open spec fn strings_view(v: Seq<String>) -> Seq<Seq<char>> {
    v.map_values(|s: String| s@)
}

/// Heading anchors by file path. A later `insert` of a path shadows an
/// earlier one.
#[derive(Clone, Debug)]
pub struct WorkspaceHeadings {
    entries: Vec<(String, Vec<String>)>,
}

/// The anchors stored under `path`: the first entry with that path.
pub open spec fn headings_in(es: Seq<(String, Vec<String>)>, path: Seq<char>) -> Option<Seq<Seq<char>>>
    decreases es.len(),
{
    if es.len() == 0 {
        None
    } else if es[0].0@ == path {
        Some(strings_view(es[0].1@))
    } else {
        headings_in(es.drop_first(), path)
    }
}

impl WorkspaceHeadings {
    pub closed spec fn lookup(&self, path: Seq<char>) -> Option<Seq<Seq<char>>> {
        headings_in(self.entries@, path)
    }

    /// A workspace with no files.
    pub fn new() -> (w: WorkspaceHeadings)
        ensures
            forall|p: Seq<char>| w.lookup(p).is_none(),
    {
        WorkspaceHeadings { entries: Vec::new() }
    }

    /// Sets the anchors of the file at `path`.
    pub fn insert(&mut self, path: String, headings: Vec<String>)
        ensures
            forall|p: Seq<char>|
                final(self).lookup(p) == if p == path@ {
                    Some(strings_view(headings@))
                } else {
                    old(self).lookup(p)
                },
    {
        let ghost p0 = path@;
        let ghost h0 = strings_view(headings@);
        self.entries.insert(0, (path, headings));
        assert forall|p: Seq<char>|
            final(self).lookup(p) == if p == p0 {
                Some(h0)
            } else {
                old(self).lookup(p)
            } by {
            assert(self.entries@.drop_first() =~= old(self).entries@);
        }
    }

    /// The anchors of the file at `path`.
    pub fn get(&self, path: &str) -> (r: Option<&Vec<String>>)
        ensures
            match r {
                Some(v) => self.lookup(path@) == Some(strings_view(v@)),
                None => self.lookup(path@).is_none(),
            },
    {
        let kv = chars_of(path);
        let mut i: usize = 0;
        assert(self.entries@.skip(0) =~= self.entries@);
        while i < self.entries.len()
            invariant
                kv@ == path@,
                i <= self.entries@.len(),
                self.lookup(path@) == headings_in(self.entries@.skip(i as int), path@),
            decreases self.entries@.len() - i,
        {
            let ek = chars_of(self.entries[i].0.as_str());
            assert(self.entries@.skip(i as int).drop_first() =~= self.entries@.skip(i + 1));
            if eq_vec(&ek, &kv) {
                return Some(&self.entries[i].1);
            }
            i = i + 1;
        }
        None
    }
}

/// `x` is one of the strings of `v`.
pub fn contains_string(v: &Vec<String>, x: &Vec<char>) -> (r: bool)
    ensures
        r == strings_view(v@).contains(x@),
{
    let mut i: usize = 0;
    while i < v.len()
        invariant
            i <= v@.len(),
            forall|j: int| 0 <= j < i ==> (#[trigger] v@[j])@ != x@,
        decreases v@.len() - i,
    {
        let e = chars_of(v[i].as_str());
        if eq_vec(&e, x) {
            assert(strings_view(v@)[i as int] == x@);
            return true;
        }
        i = i + 1;
    }
    proof {
        if strings_view(v@).contains(x@) {
            let j = choose|j: int| 0 <= j < strings_view(v@).len() && strings_view(v@)[j] == x@;
            assert(v@[j]@ == x@);
        }
    }
    false
}

/// `Path::parent` of a path, as text (empty when it has none).
pub uninterp spec fn parent_dir(path: Seq<char>) -> Seq<char>;

/// Wraps `std::path::Path::parent` (an empty path where there is none);
/// the contract names the result, a function of the path's text alone.
#[verifier::external_body]
pub fn path_parent(path: &str) -> (r: String)
    ensures
        r@ == parent_dir(path@),
{
    std::path::Path::new(path).parent().unwrap_or(std::path::Path::new("")).to_string_lossy().into_owned()
}

/// `Path::join` of two paths, as text.
pub uninterp spec fn joined_path(dir: Seq<char>, file: Seq<char>) -> Seq<char>;

/// Wraps `std::path::Path::join`; the contract names the result, a
/// function of the two texts alone.
#[verifier::external_body]
pub fn path_join(dir: &str, file: &str) -> (r: String)
    ensures
        r@ == joined_path(dir@, file@),
{
    std::path::Path::new(dir).join(file).to_string_lossy().into_owned()
}

/// Wraps `std::path::Path::canonicalize`: the absolute path with every
/// link resolved, `None` where the file system gives none. The result
/// depends on what is on disk, so nothing is stated of it.
#[verifier::external_body]
pub fn canonical_path(path: &str) -> (r: Option<String>) {
    match std::path::Path::new(path).canonicalize() {
        Ok(p) => Some(p.to_string_lossy().into_owned()),
        Err(_) => None,
    }
}

} // verus!
