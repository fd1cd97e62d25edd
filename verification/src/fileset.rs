//! Sets of journal files keyed by path.
//!
//! A `FileSet` stands for a working directory, a staging index or a committed
//! tree: a finite map from relative paths to file contents, kept as a vector
//! of entries with pairwise distinct paths. Its mathematical view is a
//! `Map<Seq<char>, Seq<char>>`.

use vstd::prelude::*;

verus! {

/// One journal file: a relative path and its text content.
pub struct FileEntry {
    pub path: String,
    pub content: String,
}

/// A finite map from relative paths to file contents.
pub struct FileSet {
    pub entries: Vec<FileEntry>,
}

/// The map that a sequence of entries denotes; later entries win,
/// though a well-formed `FileSet` never repeats a path.
pub open spec fn entries_map(s: Seq<FileEntry>) -> Map<Seq<char>, Seq<char>>
    decreases s.len(),
{
    if s.len() == 0 {
        Map::empty()
    } else {
        entries_map(s.drop_last()).insert(s.last().path@, s.last().content@)
    }
}

/// A key is in the map exactly when some entry carries it.
pub proof fn lemma_entries_map_contains(s: Seq<FileEntry>, p: Seq<char>)
    ensures
        entries_map(s).contains_key(p) <==> exists|i: int| 0 <= i < s.len() && s[i].path@ == p,
    decreases s.len(),
{
    if s.len() > 0 {
        lemma_entries_map_contains(s.drop_last(), p);
        if s.last().path@ == p {
            assert(s[s.len() - 1].path@ == p);
        } else if entries_map(s).contains_key(p) {
            let i = choose|i: int| 0 <= i < s.drop_last().len() && s.drop_last()[i].path@ == p;
            assert(s[i].path@ == p);
        } else if exists|i: int| 0 <= i < s.len() && s[i].path@ == p {
            let i = choose|i: int| 0 <= i < s.len() && s[i].path@ == p;
            assert(s.drop_last()[i].path@ == p);
        }
    }
}

/// Entries with pairwise distinct paths.
pub open spec fn distinct_paths(s: Seq<FileEntry>) -> bool {
    forall|i: int, j: int| 0 <= i < j < s.len() ==> s[i].path@ != s[j].path@
}

/// With distinct paths, each entry's content is what the map holds at its path.
pub proof fn lemma_entries_map_index(s: Seq<FileEntry>, i: int)
    requires
        distinct_paths(s),
        0 <= i < s.len(),
    ensures
        entries_map(s).contains_key(s[i].path@),
        entries_map(s)[s[i].path@] == s[i].content@,
    decreases s.len(),
{
    lemma_entries_map_contains(s, s[i].path@);
    if i < s.len() - 1 {
        assert(s.drop_last()[i] == s[i]);
        lemma_entries_map_index(s.drop_last(), i);
    }
}

/// Replacing the content of one entry updates the map at that entry's path.
pub proof fn lemma_entries_map_update(s: Seq<FileEntry>, i: int, e: FileEntry)
    requires
        distinct_paths(s),
        0 <= i < s.len(),
        e.path@ == s[i].path@,
    ensures
        entries_map(s.update(i, e)) == entries_map(s).insert(e.path@, e.content@),
    decreases s.len(),
{
    let s2 = s.update(i, e);
    if i == s.len() - 1 {
        assert(s2.drop_last() =~= s.drop_last());
        assert(entries_map(s2) =~= entries_map(s).insert(e.path@, e.content@));
    } else {
        assert(s2.drop_last() =~= s.drop_last().update(i, e));
        lemma_entries_map_update(s.drop_last(), i, e);
        assert(s.last().path@ != e.path@);
        assert(entries_map(s2) =~= entries_map(s).insert(e.path@, e.content@));
    }
}

/// Taking one entry out removes the map binding at that entry's path.
pub proof fn lemma_entries_map_remove(s: Seq<FileEntry>, i: int)
    requires
        distinct_paths(s),
        0 <= i < s.len(),
    ensures
        entries_map(s.remove(i)) == entries_map(s).remove(s[i].path@),
    decreases s.len(),
{
    let s2 = s.remove(i);
    if i == s.len() - 1 {
        assert(s2 =~= s.drop_last());
        lemma_entries_map_contains(s2, s[i].path@);
        assert(entries_map(s2) =~= entries_map(s).remove(s[i].path@));
    } else {
        assert(s2.drop_last() =~= s.drop_last().remove(i));
        lemma_entries_map_remove(s.drop_last(), i);
        assert(s.last().path@ != s[i].path@);
        assert(s2.last() == s.last());
        assert(entries_map(s2) =~= entries_map(s).remove(s[i].path@));
    }
}

impl FileSet {
    /// No path occurs twice.
    pub open spec fn wf(&self) -> bool {
        distinct_paths(self.entries@)
    }

    /// The empty set of files.
    pub fn new() -> (r: FileSet)
        ensures
            r.wf(),
            r@ == Map::<Seq<char>, Seq<char>>::empty(),
            r.entries@.len() == 0,
    {
        FileSet { entries: Vec::new() }
    }

    /// Look a path up.
    pub fn get(&self, path: &String) -> (r: Option<&String>)
        requires
            self.wf(),
        ensures
            match r {
                Some(c) => self@.contains_key(path@) && c@ == self@[path@],
                None => !self@.contains_key(path@),
            },
    {
        let n = self.entries.len();
        let mut i: usize = 0;
        while i < n
            invariant
                n == self.entries@.len(),
                0 <= i <= n,
                self.wf(),
                forall|k: int| 0 <= k < i ==> self.entries@[k].path@ != path@,
            decreases n - i,
        {
            if self.entries[i].path == *path {
                proof {
                    lemma_entries_map_index(self.entries@, i as int);
                }
                return Some(&self.entries[i].content);
            }
            i = i + 1;
        }
        proof {
            lemma_entries_map_contains(self.entries@, path@);
        }
        None
    }

    /// Bind a path to a content, replacing any earlier binding.
    pub fn set(&mut self, path: String, content: String)
        requires
            old(self).wf(),
        ensures
            final(self).wf(),
            final(self)@ == old(self)@.insert(path@, content@),
    {
        let n = self.entries.len();
        let mut i: usize = 0;
        while i < n
            invariant
                n == self.entries@.len(),
                0 <= i <= n,
                self.wf(),
                *self == *old(self),
                forall|k: int| 0 <= k < i ==> self.entries@[k].path@ != path@,
            decreases n - i,
        {
            if self.entries[i].path == path {
                let e = FileEntry { path, content };
                proof {
                    lemma_entries_map_update(self.entries@, i as int, e);
                }
                self.entries.set(i, e);
                return ;
            }
            i = i + 1;
        }
        proof {
            lemma_entries_map_contains(self.entries@, path@);
        }
        self.entries.push(FileEntry { path, content });
        proof {
            assert(self.entries@.drop_last() =~= old(self).entries@);
        }
    }

    /// Drop the binding at a path, if any.
    pub fn remove(&mut self, path: &String)
        requires
            old(self).wf(),
        ensures
            final(self).wf(),
            final(self)@ == old(self)@.remove(path@),
    {
        let n = self.entries.len();
        let mut i: usize = 0;
        while i < n
            invariant
                n == self.entries@.len(),
                0 <= i <= n,
                self.wf(),
                *self == *old(self),
                forall|k: int| 0 <= k < i ==> self.entries@[k].path@ != path@,
            decreases n - i,
        {
            if self.entries[i].path == *path {
                proof {
                    lemma_entries_map_remove(self.entries@, i as int);
                }
                self.entries.remove(i);
                return ;
            }
            i = i + 1;
        }
        proof {
            lemma_entries_map_contains(self.entries@, path@);
            assert(self@ =~= self@.remove(path@));
        }
    }

    /// An identical, independently owned copy; used to freeze the index
    /// into an immutable snapshot at commit time.
    pub fn snapshot(&self) -> (r: FileSet)
        ensures
            r.entries@ == self.entries@,
            r@ == self@,
            r.wf() == self.wf(),
    {
        let n = self.entries.len();
        let mut out: Vec<FileEntry> = Vec::new();
        let mut i: usize = 0;
        while i < n
            invariant
                n == self.entries@.len(),
                0 <= i <= n,
                out@ =~= self.entries@.take(i as int),
            decreases n - i,
        {
            let e = FileEntry {
                path: self.entries[i].path.clone(),
                content: self.entries[i].content.clone(),
            };
            proof {
                assert(e == self.entries@[i as int]);
            }
            out.push(e);
            proof {
                assert(out@ =~= self.entries@.take(i as int + 1));
            }
            i = i + 1;
        }
        proof {
            assert(out@ =~= self.entries@);
        }
        FileSet { entries: out }
    }

    /// Whether a path is present.
    pub fn contains_path(&self, path: &String) -> (r: bool)
        requires
            self.wf(),
        ensures
            r == self@.contains_key(path@),
    {
        match self.get(path) {
            Some(_) => true,
            None => false,
        }
    }
}

impl View for FileSet {
    type V = Map<Seq<char>, Seq<char>>;

    open spec fn view(&self) -> Map<Seq<char>, Seq<char>> {
        entries_map(self.entries@)
    }
}

} // verus!
