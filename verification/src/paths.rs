use vstd::prelude::*;

use crate::text::text_equals;

verus! {

/// A file-system path held as its components: whether it starts at the root, then its
/// other components (normal names, and `.` or `..` where the path holds them), in order.
pub struct AssetPath {
    pub has_root: bool,
    pub segments: Vec<String>,
}

/// The mathematical content of an [`AssetPath`].
#[verifier::ext_equal]
pub struct PathModel {
    pub has_root: bool,
    pub segments: Seq<Seq<char>>,
}

impl View for AssetPath {
    type V = PathModel;

    open spec fn view(&self) -> PathModel {
        PathModel { has_root: self.has_root, segments: Seq::new(self.segments.len() as nat, |i: int| self.segments[i]@) }
    }
}

/// The path `p` with one more component at its end.
pub open spec fn path_join(p: PathModel, segment: Seq<char>) -> PathModel {
    PathModel { has_root: p.has_root, segments: p.segments.push(segment) }
}

/// The last component of `p`, when it is a normal name.
pub open spec fn path_file_name(p: PathModel) -> Option<Seq<char>> {
    if p.segments.len() > 0 && p.segments.last() != "."@ && p.segments.last() != ".."@ {
        Some(p.segments.last())
    } else {
        None
    }
}

/// Position of the last `.` in `s`, or -1.
pub open spec fn last_dot(s: Seq<char>) -> int
    decreases s.len(),
{
    if s.len() == 0 {
        -1
    } else if s.last() == '.' {
        s.len() - 1
    } else {
        last_dot(s.drop_last())
    }
}

/// The extension of a file name: what follows its last `.`, when something precedes that `.`.
pub open spec fn name_extension(name: Seq<char>) -> Option<Seq<char>> {
    let d = last_dot(name);
    if d <= 0 {
        None
    } else {
        Some(name.subrange(d + 1, name.len() as int))
    }
}

/// The extension of the file name of `p`.
pub open spec fn path_extension(p: PathModel) -> Option<Seq<char>> {
    match path_file_name(p) {
        Some(name) => name_extension(name),
        None => None,
    }
}

proof fn lemma_last_dot_bounds(s: Seq<char>)
    ensures
        -1 <= last_dot(s) < s.len(),
        last_dot(s) >= 0 ==> s[last_dot(s)] == '.',
        forall|i: int| last_dot(s) < i < s.len() ==> s[i] != '.',
    decreases s.len(),
{
    if s.len() > 0 && s.last() != '.' {
        lemma_last_dot_bounds(s.drop_last());
        assert forall|i: int| last_dot(s) < i < s.len() implies s[i] != '.' by {
            if i < s.len() - 1 {
                assert(s.drop_last()[i] == s[i]);
            }
        }
    }
}

/// Removing the last component of a path that has just gained one gives the path back, and
/// the gained component, when it is a name, is the file name of the longer path.
pub proof fn lemma_pop_undoes_push(p: PathModel, segment: Seq<char>)
    ensures
        path_join(p, segment).segments.len() > 0,
        path_join(p, segment).segments.drop_last() == p.segments,
        path_join(p, segment).has_root == p.has_root,
        segment != "."@ && segment != ".."@ ==> path_file_name(path_join(p, segment)) == Some(segment),
{
    assert(path_join(p, segment).segments.drop_last() =~= p.segments);
}

/// An extension holds no `.`: it is what follows the last one.
pub proof fn lemma_extension_has_no_dot(p: PathModel)
    ensures
        path_extension(p) matches Some(ext) ==> forall|i: int| 0 <= i < ext.len() ==> ext[i] != '.',
{
    if let Some(name) = path_file_name(p) {
        lemma_last_dot_bounds(name);
        let d = last_dot(name);
        if d > 0 {
            let ext = name.subrange(d + 1, name.len() as int);
            assert forall|i: int| 0 <= i < ext.len() implies ext[i] != '.' by {
                assert(ext[i] == name[d + 1 + i]);
            }
        }
    }
}

/// Position of the last `.` in `s`, if there is one.
fn find_last_dot(s: &str) -> (r: Option<usize>)
    ensures
        match r {
            Some(d) => d as int == last_dot(s@),
            None => last_dot(s@) == -1,
        },
{
    let len = s.unicode_len();
    let mut i: usize = len;
    assert(s@.take(len as int) =~= s@);
    while i > 0
        invariant
            len == s@.len(),
            i <= len,
            last_dot(s@) == last_dot(s@.take(i as int)),
        decreases i,
    {
        let c = s.get_char(i - 1);
        proof {
            assert(s@.take(i as int).drop_last() =~= s@.take(i - 1));
        }
        if c == '.' {
            return Some(i - 1);
        }
        i -= 1;
    }
    proof {
        assert(s@.take(len as int) =~= s@);
    }
    None
}

impl AssetPath {
    /// A path of its own with the same components.
    pub fn duplicate(&self) -> (p: AssetPath)
        ensures
            p@ == self@,
    {
        let mut segments: Vec<String> = Vec::new();
        let mut i: usize = 0;
        while i < self.segments.len()
            invariant
                i <= self.segments.len(),
                segments@.len() == i,
                forall|k: int| 0 <= k < i ==> segments@[k]@ == self.segments@[k]@,
            decreases self.segments.len() - i,
        {
            segments.push(self.segments[i].clone());
            i += 1;
        }
        let p = AssetPath { has_root: self.has_root, segments };
        assert(p@ =~= self@);
        p
    }

    /// Appends one component.
    pub fn push(&mut self, segment: String)
        ensures
            final(self)@ == path_join(old(self)@, segment@),
    {
        self.segments.push(segment);
        assert(self@ =~= path_join(old(self)@, segment@));
    }

    /// Removes the last component; returns whether there was one to remove.
    pub fn pop(&mut self) -> (removed: bool)
        ensures
            removed == (old(self)@.segments.len() > 0),
            final(self)@.has_root == old(self)@.has_root,
            final(self)@.segments == if removed {
                old(self)@.segments.drop_last()
            } else {
                old(self)@.segments
            },
    {
        if self.segments.len() == 0 {
            return false;
        }
        let _ = self.segments.pop();
        assert(self@.segments =~= old(self)@.segments.drop_last());
        true
    }

    /// The last component, when it is a normal name.
    pub fn file_name(&self) -> (name: Option<String>)
        ensures
            match name {
                Some(n) => path_file_name(self@) == Some(n@),
                None => path_file_name(self@).is_none(),
            },
    {
        let len = self.segments.len();
        if len == 0 {
            return None;
        }
        let last = &self.segments[len - 1];
        if text_equals(last.as_str(), ".") || text_equals(last.as_str(), "..") {
            None
        } else {
            Some(last.clone())
        }
    }

    /// The extension of the file name.
    pub fn extension(&self) -> (ext: Option<String>)
        ensures
            match ext {
                Some(e) => path_extension(self@) == Some(e@),
                None => path_extension(self@).is_none(),
            },
    {
        match self.file_name() {
            None => None,
            Some(name) => {
                match find_last_dot(name.as_str()) {
                    None => None,
                    Some(d) => {
                        if d == 0 {
                            None
                        } else {
                            proof {
                                lemma_last_dot_bounds(name@);
                            }
                            let len = name.as_str().unicode_len();
                            Some(name.as_str().substring_char(d + 1, len).to_owned())
                        }
                    },
                }
            },
        }
    }

    /// Whether two paths have the same components.
    pub fn same_path(&self, other: &AssetPath) -> (same: bool)
        ensures
            same == (self@ == other@),
    {
        if self.has_root != other.has_root || self.segments.len() != other.segments.len() {
            proof {
                if self.segments.len() != other.segments.len() {
                    assert(self@.segments.len() != other@.segments.len());
                }
            }
            return false;
        }
        let mut i: usize = 0;
        while i < self.segments.len()
            invariant
                self.segments.len() == other.segments.len(),
                i <= self.segments.len(),
                forall|k: int| 0 <= k < i ==> self.segments@[k]@ == other.segments@[k]@,
            decreases self.segments.len() - i,
        {
            if !text_equals(self.segments[i].as_str(), other.segments[i].as_str()) {
                assert(self@.segments[i as int] != other@.segments[i as int]);
                return false;
            }
            i += 1;
        }
        assert(self@ =~= other@);
        true
    }
}

} // verus!

verus! {

/// One entry met while walking a folder: its path and whether it is a regular file.
pub struct WalkEntry {
    pub path: AssetPath,
    pub is_file: bool,
}

/// Every regular file among `entries` has an extension.
pub open spec fn walked_files_have_extensions(entries: Seq<WalkEntry>) -> bool {
    forall|i: int| 0 <= i < entries.len() && #[trigger] entries[i].is_file ==> path_extension(entries[i].path@).is_some()
}

/// Whether every regular file among `entries` has an extension.
pub fn walk_files_have_extensions(entries: &Vec<WalkEntry>) -> (all: bool)
    ensures
        all == walked_files_have_extensions(entries@),
{
    let mut i: usize = 0;
    while i < entries.len()
        invariant
            i <= entries.len(),
            forall|q: int| 0 <= q < i && #[trigger] entries@[q].is_file ==> path_extension(entries@[q].path@).is_some(),
        decreases entries.len() - i,
    {
        if entries[i].is_file {
            if entries[i].path.extension().is_none() {
                assert(entries@[i as int].is_file);
                return false;
            }
        }
        i += 1;
    }
    true
}

/// The paths of a list of paths.
pub open spec fn path_views(paths: Seq<AssetPath>) -> Seq<PathModel> {
    Seq::new(paths.len(), |i: int| paths[i]@)
}

} // verus!
