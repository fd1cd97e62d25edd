//! What the user asked the tool to do.

use vstd::prelude::*;

use crate::digits::hex_spec;
use crate::digits::is_hex_digit;
use crate::digits::lemma_hex_spec_digits;
use crate::digits::to_hex;

verus! {

/// The commands the tool accepts. Without one, the tool edits a fresh
/// entry under a newly generated name.
#[derive(Debug)]
pub enum Command {
    /// Edit or create a journal entry.
    Edit { entry: Option<String> },
    /// Search journal entries.
    Search { terms: Vec<String>, limit: usize },
    /// Show the last journal entries.
    Log { limit: usize },
}

/// The shape of a freshly generated entry name: nonempty, lowercase
/// hexadecimal.
pub open spec fn fresh_name(s: Seq<char>) -> bool {
    s.len() > 0 && forall|i: int| 0 <= i < s.len() ==> is_hex_digit(#[trigger] s[i])
}

/// Relies on std::time::SystemTime::now: the clock reading in nanoseconds
/// since the epoch, different at practically every call; a clock set
/// before the epoch reads as 0. Nothing can be promised of the value.
#[verifier::external_body]
fn clock_nanos() -> (r: u64) {
    match std::time::SystemTime::now().duration_since(std::time::UNIX_EPOCH) {
        Ok(d) => d.as_nanos() as u64,
        Err(_) => 0,
    }
}

/// A freshly generated entry name: the clock reading, rendered in
/// lowercase hexadecimal by verified code, so the name is nonempty and
/// hexadecimal whatever the clock said.
pub fn gen_id() -> (r: String)
    ensures
        fresh_name(r@),
{
    let n = clock_nanos();
    let s = to_hex(n);
    proof {
        lemma_hex_spec_digits(n as nat);
        assert(s@ == hex_spec(n as nat));
    }
    s
}

/// Two commands that ask for the same thing, compared by content.
pub open spec fn cmd_like(a: Command, b: Command) -> bool {
    match (a, b) {
        (Command::Edit { entry: e1 }, Command::Edit { entry: e2 }) => e1 == e2,
        (
            Command::Search { terms: t1, limit: l1 },
            Command::Search { terms: t2, limit: l2 },
        ) => t1@ == t2@ && l1 == l2,
        (Command::Log { limit: l1 }, Command::Log { limit: l2 }) => l1 == l2,
        _ => false,
    }
}

impl Default for Command {
    /// Without a command, edit a fresh entry under a newly generated
    /// unique name: the entry is always named, never left open.
    fn default() -> (r: Self)
        ensures
            match r {
                Command::Edit { entry } => match entry {
                    Some(id) => fresh_name(id@),
                    None => false,
                },
                _ => false,
            },
    {
        Command::Edit { entry: Some(gen_id()) }
    }
}

/// An owned copy of an optional string.
pub fn clone_opt_string(o: &Option<String>) -> (r: Option<String>)
    ensures
        r == *o,
{
    match o {
        Some(s) => Some(s.clone()),
        None => None,
    }
}

} // verus!
