//! The shader files known to a resolution, and the record of those already
//! expanded.

use vstd::prelude::*;

verus! {

/// One shader file: its canonical path and its text.
#[derive(Debug)]
pub struct SourceFile {
    pub path: String,
    pub text: String,
}

/// The map that a list of files stands for: each path leads to the text of
/// the last file listed under it.
pub open spec fn files_map(files: Seq<SourceFile>) -> Map<Seq<char>, Seq<char>>
    decreases files.len(),
{
    if files.len() == 0 {
        Map::empty()
    } else {
        files_map(files.drop_last()).insert(files.last().path@, files.last().text@)
    }
}

/// The map of a list of files has finitely many paths.
pub proof fn lemma_files_map_finite(files: Seq<SourceFile>)
    ensures
        files_map(files).dom().finite(),
    decreases files.len(),
{
    if files.len() > 0 {
        lemma_files_map_finite(files.drop_last());
    }
}

/// A path that no file from `from` on is listed under leads where it leads
/// in the first `from` files.
proof fn lemma_files_map_prefix(files: Seq<SourceFile>, from: int, path: Seq<char>)
    requires
        0 <= from <= files.len(),
        forall|j: int| from <= j < files.len() ==> files[j].path@ != path,
    ensures
        files_map(files).contains_key(path) == files_map(files.take(from)).contains_key(path),
        files_map(files).contains_key(path) ==> files_map(files)[path] == files_map(
            files.take(from),
        )[path],
    decreases files.len() - from,
{
    if from == files.len() {
        assert(files.take(from) =~= files);
    } else {
        lemma_files_map_prefix(files.drop_last(), from, path);
        assert(files.drop_last().take(from) =~= files.take(from));
    }
}

/// The shader files that a resolution can read: a finite map from canonical
/// path to text.
#[derive(Debug)]
pub struct SourceSet {
    files: Vec<SourceFile>,
}

impl View for SourceSet {
    type V = Map<Seq<char>, Seq<char>>;

    closed spec fn view(&self) -> Map<Seq<char>, Seq<char>> {
        files_map(self.files@)
    }
}

impl Default for SourceSet {
    /// A set without files.
    fn default() -> (sources: SourceSet)
        ensures
            sources@ == Map::<Seq<char>, Seq<char>>::empty(),
    {
        SourceSet::new()
    }
}

impl SourceSet {
    /// A set without files.
    pub fn new() -> (sources: SourceSet)
        ensures
            sources@ == Map::<Seq<char>, Seq<char>>::empty(),
    {
        SourceSet { files: Vec::new() }
    }

    /// Every set holds finitely many files.
    pub proof fn lemma_finite(&self)
        ensures
            self@.dom().finite(),
    {
        lemma_files_map_finite(self.files@);
    }

    /// Puts `text` under `path`, in place of what was there.
    pub fn insert(&mut self, path: String, text: String)
        ensures
            final(self)@ == old(self)@.insert(path@, text@),
    {
        let ghost before = self.files@;
        self.files.push(SourceFile { path, text });
        assert(self.files@.drop_last() =~= before);
    }

    /// The text under `path`, if the set holds that path.
    pub fn get(&self, path: &str) -> (text: Option<&String>)
        ensures
            match text {
                Some(t) => self@.contains_key(path@) && self@[path@] == t@,
                None => !self@.contains_key(path@),
            },
    {
        let wanted = path.to_owned();
        let mut i: usize = self.files.len();
        while i > 0
            invariant
                i <= self.files.len(),
                wanted@ == path@,
                forall|j: int| i <= j < self.files.len() ==> self.files[j].path@ != path@,
            decreases i,
        {
            i -= 1;
            if self.files[i].path == wanted {
                proof {
                    lemma_files_map_prefix(self.files@, i + 1, path@);
                }
                return Some(&self.files[i].text);
            }
        }
        proof {
            lemma_files_map_prefix(self.files@, 0, path@);
        }
        None
    }

    /// Whether the set holds `path`.
    pub fn contains(&self, path: &str) -> (held: bool)
        ensures
            held == self@.contains_key(path@),
    {
        self.get(path).is_some()
    }
}

/// The canonical paths of the files that a resolution has expanded so far.
#[derive(Debug)]
pub struct VisitedSet {
    paths: Vec<String>,
}

impl View for VisitedSet {
    type V = Set<Seq<char>>;

    closed spec fn view(&self) -> Set<Seq<char>> {
        Set::new(|path: Seq<char>| exists|i: int| 0 <= i < self.paths.len() && self.paths[i]@ == path)
    }
}

impl Default for VisitedSet {
    /// A record without paths.
    fn default() -> (visited: VisitedSet)
        ensures
            visited@ == Set::<Seq<char>>::empty(),
    {
        VisitedSet::new()
    }
}

impl VisitedSet {
    /// A record without paths.
    pub fn new() -> (visited: VisitedSet)
        ensures
            visited@ == Set::<Seq<char>>::empty(),
    {
        let visited = VisitedSet { paths: Vec::new() };
        visited
    }

    /// Whether `path` is on record.
    pub fn contains(&self, path: &str) -> (held: bool)
        ensures
            held == self@.contains(path@),
    {
        let wanted = path.to_owned();
        let mut i: usize = 0;
        while i < self.paths.len()
            invariant
                i <= self.paths.len(),
                wanted@ == path@,
                forall|j: int| 0 <= j < i ==> self.paths[j]@ != path@,
            decreases self.paths.len() - i,
        {
            if self.paths[i] == wanted {
                return true;
            }
            i += 1;
        }
        false
    }

    /// Puts `path` on record.
    pub fn insert(&mut self, path: String)
        ensures
            final(self)@ == old(self)@.insert(path@),
    {
        let ghost before = self.paths@;
        self.paths.push(path);
        assert forall|p: Seq<char>| self@.contains(p) <==> old(self)@.insert(path@).contains(
            p,
        ) by {
            if old(self)@.contains(p) {
                let i = choose|i: int| 0 <= i < before.len() && before[i]@ == p;
                assert(self.paths[i]@ == p);
            }
            if p == path@ {
                assert(self.paths[before.len() as int]@ == p);
            }
        }
    }
}

} // verus!
