//! The tool's configuration and the paths it derives.
//!
//! Paths are plain strings joined with `/`. Where the machine decides a
//! location (the user's data directory), a trusted lookup hands back an
//! optional path and the verified logic picks the first one available.

use vstd::prelude::*;

use crate::cmd::Command;
use crate::cmd::clone_opt_string;
use crate::cmd::cmd_like;
use crate::date::DayDate;
use crate::date::date_file_name;
use crate::date::date_spec;
use crate::scan::clone_strings;

verus! {

/// What the tool was invoked with: the debug flag, the journal namespace
/// and the command to run.
pub struct Config {
    pub debug: bool,
    pub namespace: String,
    pub cmd: Option<Command>,
}

/// The first location that is available.
pub open spec fn first_some_spec(options: Seq<Option<String>>) -> Option<String>
    decreases options.len(),
{
    if options.len() == 0 {
        None
    } else {
        match options[0] {
            Some(s) => Some(s),
            None => first_some_spec(options.drop_first()),
        }
    }
}

/// Relies on dirs_next::data_local_dir; where it points depends on the
/// machine and the user.
#[verifier::external_body]
fn data_local_dir_path() -> (r: Option<String>) {
    match dirs_next::data_local_dir() {
        Some(p) => match p.to_str() {
            Some(s) => Some(s.to_owned()),
            None => None,
        },
        None => None,
    }
}

/// Relies on dirs_next::data_dir; where it points depends on the machine
/// and the user.
#[verifier::external_body]
fn data_dir_path() -> (r: Option<String>) {
    match dirs_next::data_dir() {
        Some(p) => match p.to_str() {
            Some(s) => Some(s.to_owned()),
            None => None,
        },
        None => None,
    }
}

/// Relies on dirs_next::document_dir; where it points depends on the
/// machine and the user.
#[verifier::external_body]
fn document_dir_path() -> (r: Option<String>) {
    match dirs_next::document_dir() {
        Some(p) => match p.to_str() {
            Some(s) => Some(s.to_owned()),
            None => None,
        },
        None => None,
    }
}

/// Relies on dirs_next::home_dir; where it points depends on the machine
/// and the user.
#[verifier::external_body]
fn home_dir_path() -> (r: Option<String>) {
    match dirs_next::home_dir() {
        Some(p) => match p.to_str() {
            Some(s) => Some(s.to_owned()),
            None => None,
        },
        None => None,
    }
}

/// Pick the first available location.
pub fn first_some(options: Vec<Option<String>>) -> (r: Option<String>)
    ensures
        r == first_some_spec(options@),
{
    let n = options.len();
    let mut i: usize = 0;
    proof {
        assert(options@.skip(0) =~= options@);
    }
    while i < n
        invariant
            n == options@.len(),
            0 <= i <= n,
            first_some_spec(options@) == first_some_spec(options@.skip(i as int)),
        decreases n - i,
    {
        proof {
            assert(options@.skip(i as int)[0] == options@[i as int]);
            assert(options@.skip(i as int).drop_first() =~= options@.skip(i as int + 1));
        }
        match &options[i] {
            Some(s) => {
                return Some(s.clone());
            },
            None => {},
        }
        i = i + 1;
    }
    proof {
        assert(options@.skip(n as int) =~= Seq::<Option<String>>::empty());
    }
    None
}

/// Join two path pieces with a separator.
pub fn join_path(a: &str, b: &str) -> (r: String)
    ensures
        r@ == a@ + "/"@ + b@,
{
    proof {
        reveal_strlit("/");
    }
    String::from_str(a).concat("/").concat(b)
}

/// Where the private key for remote authentication is expected: the usual
/// place under the user's home directory.
pub fn ssh_key_path(home: &str) -> (r: String)
    ensures
        r@ == home@ + "/.ssh/id_rsa"@,
{
    proof {
        reveal_strlit("/.ssh/id_rsa");
    }
    String::from_str(home).concat("/.ssh/id_rsa")
}

impl Config {
    /// Whether debug information was asked for.
    pub fn debug(&self) -> (r: bool)
        ensures
            r == self.debug,
    {
        self.debug
    }

    /// The command to run; without one, edit a fresh entry under a newly
    /// generated unique name.
    pub fn command(&self) -> (r: Command)
        ensures
            match self.cmd {
                Some(c) => cmd_like(r, c),
                None => match r {
                    Command::Edit { entry } => match entry {
                        Some(id) => crate::cmd::fresh_name(id@),
                        None => false,
                    },
                    _ => false,
                },
            },
    {
        match &self.cmd {
            Some(c) => match c {
                Command::Edit { entry } => Command::Edit { entry: clone_opt_string(entry) },
                Command::Search { terms, limit } => Command::Search {
                    terms: clone_strings(terms),
                    limit: *limit,
                },
                Command::Log { limit } => Command::Log { limit: *limit },
            },
            None => Command::default(),
        }
    }

    /// The tool's own data directory: the first available data root plus
    /// the tool's name. `None` when the machine offers no root at all.
    fn data_dir(&self) -> (r: Option<String>)
        ensures
            match r {
                Some(d) => exists|pre: Seq<char>| d@ == pre + "/"@ + "jrn"@,
                None => true,
            },
    {
        let mut options: Vec<Option<String>> = Vec::new();
        options.push(data_local_dir_path());
        options.push(data_dir_path());
        options.push(document_dir_path());
        options.push(home_dir_path());
        match first_some(options) {
            Some(root) => {
                let d = join_path(root.as_str(), "jrn");
                proof {
                    assert(d@ == root@ + "/"@ + "jrn"@);
                }
                Some(d)
            },
            None => None,
        }
    }

    /// The directory of this namespace's entries. `None` when the machine
    /// offers no data root.
    pub fn dir(&self) -> (r: Option<String>)
        ensures
            match r {
                Some(d) => exists|pre: Seq<char>|
                    d@ == pre + "/"@ + "jrn"@ + "/"@ + self.namespace@,
                None => true,
            },
    {
        match self.data_dir() {
            Some(root) => {
                let d = join_path(root.as_str(), self.namespace.as_str());
                proof {
                    let pre0 = choose|pre: Seq<char>| root@ == pre + "/"@ + "jrn"@;
                    assert(d@ == (pre0 + "/"@ + "jrn"@) + "/"@ + self.namespace@);
                    assert(d@ == pre0 + "/"@ + "jrn"@ + "/"@ + self.namespace@);
                }
                Some(d)
            },
            None => None,
        }
    }

    /// The file that holds the entry for a date. `None` when the machine
    /// offers no data root.
    pub fn file(&self, date: &DayDate) -> (r: Option<String>)
        requires
            date.valid(),
        ensures
            match r {
                Some(f) => exists|pre: Seq<char>|
                    f@ == pre + "/"@ + "jrn"@ + "/"@ + self.namespace@ + "/"@ + date_spec(*date)
                        + ".md"@,
                None => true,
            },
    {
        match self.dir() {
            Some(d) => {
                let name = date_file_name(date);
                let f = join_path(d.as_str(), name.as_str());
                proof {
                    let pre0 = choose|pre: Seq<char>|
                        d@ == pre + "/"@ + "jrn"@ + "/"@ + self.namespace@;
                    assert(f@ == (pre0 + "/"@ + "jrn"@ + "/"@ + self.namespace@) + "/"@ + (
                    date_spec(*date) + ".md"@));
                    assert(f@ == pre0 + "/"@ + "jrn"@ + "/"@ + self.namespace@ + "/"@ + date_spec(
                        *date,
                    ) + ".md"@);
                }
                Some(f)
            },
            None => None,
        }
    }
}

} // verus!
