//! One journal entry: a file name and its text.

use vstd::prelude::*;

verus! {

/// A journal entry read from the journal directory.
pub struct Entry {
    pub name: String,
    pub content: String,
}

/// Why a directory item is not a journal entry.
pub enum EntryError {
    /// The item is a directory.
    IsDir,
    /// The item is a symbolic link.
    IsSymlink,
    /// Something else went wrong; the message says what.
    Other(String),
}

/// The case-folded form of a text, as `str::to_lowercase` computes it.
pub uninterp spec fn lower_of(s: Seq<char>) -> Seq<char>;

/// `needle` occurs contiguously inside `hay`.
pub open spec fn is_substring_of(needle: Seq<char>, hay: Seq<char>) -> bool {
    exists|i: int|
        0 <= i && i + needle.len() <= hay.len() && #[trigger] hay.subrange(i, i + needle.len())
            == needle
}

/// Relies on str::to_lowercase: the Unicode lowercase mapping of the text,
/// a function of the characters alone; the empty text stays empty.
#[verifier::external_body]
fn lowercase(s: &str) -> (r: String)
    ensures
        r@ == lower_of(s@),
        s@.len() == 0 ==> r@.len() == 0,
{
    s.to_lowercase()
}

/// Relies on str::contains with a string pattern: true exactly when the
/// pattern occurs as a contiguous substring.
#[verifier::external_body]
fn str_contains(hay: &str, needle: &str) -> (r: bool)
    ensures
        r == is_substring_of(needle@, hay@),
{
    hay.contains(needle)
}

/// An entry matches a list of terms when it contains at least one of them,
/// case-folded.
pub open spec fn matches_any(e: Entry, terms: Seq<String>) -> bool {
    exists|i: int|
        0 <= i < terms.len() && is_substring_of(lower_of(terms[i]@), lower_of(e.content@))
}

impl Entry {
    /// The entry's file name.
    pub fn name(&self) -> (r: &str)
        ensures
            r@ == self.name@,
    {
        self.name.as_str()
    }

    /// The entry's text.
    pub fn content(&self) -> (r: &str)
        ensures
            r@ == self.content@,
    {
        self.content.as_str()
    }

    /// Case-insensitive search for one term; an empty term matches
    /// everything.
    pub fn contains(&self, term: &str) -> (r: bool)
        ensures
            r == is_substring_of(lower_of(term@), lower_of(self.content@)),
            term@.len() == 0 ==> r,
    {
        let c = lowercase(self.content.as_str());
        let t = lowercase(term);
        proof {
            if term@.len() == 0 {
                assert(t@.len() == 0);
                assert(is_substring_of(t@, c@)) by {
                    assert(c@.subrange(0, 0 + t@.len() as int) =~= t@);
                }
            }
        }
        str_contains(c.as_str(), t.as_str())
    }

    /// Case-insensitive search for any of the terms.
    pub fn contains_any(&self, terms: &Vec<String>) -> (r: bool)
        ensures
            r == matches_any(*self, terms@),
    {
        let n = terms.len();
        let mut i: usize = 0;
        while i < n
            invariant
                n == terms@.len(),
                0 <= i <= n,
                forall|k: int|
                    0 <= k < i ==> !is_substring_of(
                        lower_of((#[trigger] terms@[k])@),
                        lower_of(self.content@),
                    ),
        decreases n - i,
        {
            if self.contains(terms[i].as_str()) {
                return true;
            }
            i = i + 1;
        }
        false
    }

    /// An identical, independently owned copy.
    pub fn duplicate(&self) -> (r: Entry)
        ensures
            r == *self,
    {
        Entry { name: self.name.clone(), content: self.content.clone() }
    }

    /// The entry as it is printed: the name between dashes, then the text.
    pub fn render(&self) -> (r: String)
        ensures
            r@ == "---"@ + self.name@ + "---\n"@ + self.content@ + "\n"@,
    {
        String::from_str("---").concat(self.name.as_str()).concat("---\n").concat(
            self.content.as_str(),
        ).concat("\n")
    }

    /// Classify what a directory walk found: directories and symbolic links
    /// are not entries, a file needs a readable name and readable text.
    pub fn from_parts(
        is_dir: bool,
        is_symlink: bool,
        name: Option<String>,
        content: Result<String, String>,
    ) -> (r: Result<Entry, EntryError>)
        ensures
            is_dir ==> r matches Err(EntryError::IsDir),
            !is_dir && is_symlink ==> r matches Err(EntryError::IsSymlink),
            !is_dir && !is_symlink && name is None ==> (match r {
                Err(EntryError::Other(m)) => m@ == "Unable to convert name of file"@,
                _ => false,
            }),
            !is_dir && !is_symlink && name is Some && content is Err ==> r == Err::<
                Entry,
                EntryError,
            >(EntryError::Other(content->Err_0)),
            !is_dir && !is_symlink && name is Some && content is Ok ==> r == Ok::<
                Entry,
                EntryError,
            >(Entry { name: name->0, content: content->Ok_0 }),
    {
        if is_dir {
            return Err(EntryError::IsDir);
        }
        if is_symlink {
            return Err(EntryError::IsSymlink);
        }
        let name: String = match name {
            Some(n) => n,
            None => {
                return Err(EntryError::Other(String::from_str("Unable to convert name of file")));
            },
        };
        let content: String = match content {
            Ok(c) => c,
            Err(e) => {
                return Err(EntryError::Other(e));
            },
        };
        Ok(Entry { name, content })
    }
}

} // verus!
