//! The model of the local version-controlled store.
//!
//! A `World` is everything one synchronization run works on: the object
//! store (a vector of commits, where a commit's position is its identifier
//! and parents always point at earlier positions), the current branch tip,
//! the staging index, the working directory, the paths left in conflict by
//! an earlier failed merge, and the optional remote. Ancestry between
//! commits is the reflexive-transitive closure of the parent relation.

use vstd::prelude::*;

use crate::fileset::FileSet;
use crate::fileset::distinct_paths;
use crate::fileset::entries_map;

verus! {

/// One commit: its parents (none for a root commit, two for a merge),
/// the snapshot of the journal it records, and a human-readable summary.
pub struct CommitData {
    pub parents: Vec<u64>,
    pub tree: FileSet,
    pub message: String,
}

/// A named remote as the engine sees it. `tip` is the remote branch tip at
/// fetch time; `incoming`, when present, is a tip the remote adopts right
/// after our fetch (a concurrent writer), which is how a rejected push
/// arises. `reachable` and `needs_key` model the transport and its
/// credential demand.
pub struct RemoteModel {
    pub name: String,
    pub tip: Option<u64>,
    pub incoming: Option<u64>,
    pub reachable: bool,
    pub needs_key: bool,
}

/// The state a synchronization run opens, reads and rewrites.
pub struct World {
    pub initialized: bool,
    pub commits: Vec<CommitData>,
    pub tip: Option<u64>,
    pub index: FileSet,
    pub work: FileSet,
    pub ignored: Vec<String>,
    pub conflicts: Vec<String>,
    pub remote: Option<RemoteModel>,
}

/// Parents point strictly backwards and every recorded tree is well formed.
pub open spec fn store_ok(cs: Seq<CommitData>) -> bool {
    &&& forall|i: int, j: int|
        0 <= i < cs.len() && 0 <= j < cs[i].parents@.len() ==> (cs[i].parents@[j] as int) < i
    &&& forall|i: int| 0 <= i < cs.len() ==> distinct_paths(#[trigger] cs[i].tree.entries@)
}

/// An optional commit identifier that points into the store.
pub open spec fn tip_ok(t: Option<u64>, cs: Seq<CommitData>) -> bool {
    match t {
        Some(c) => (c as int) < cs.len(),
        None => true,
    }
}

/// The tree of the commit a tip names, as a map; an absent tip denotes the
/// empty journal.
pub open spec fn tree_at(cs: Seq<CommitData>, t: Option<u64>) -> Map<Seq<char>, Seq<char>> {
    match t {
        Some(c) => entries_map(cs[c as int].tree.entries@),
        None => Map::<Seq<char>, Seq<char>>::empty(),
    }
}

impl World {
    /// The whole state is internally consistent.
    pub open spec fn wf(&self) -> bool {
        &&& store_ok(self.commits@)
        &&& tip_ok(self.tip, self.commits@)
        &&& self.index.wf()
        &&& self.work.wf()
        &&& match self.remote {
            Some(r) => tip_ok(r.tip, self.commits@) && tip_ok(r.incoming, self.commits@),
            None => true,
        }
    }

    /// The tree last committed on the local branch.
    pub open spec fn head_tree(&self) -> Map<Seq<char>, Seq<char>> {
        tree_at(self.commits@, self.tip)
    }

    /// The index agrees with the last committed tree: no half-staged state
    /// is left over from an earlier failed attempt.
    pub open spec fn clean_index(&self) -> bool {
        self.index@ == self.head_tree()
    }
}

/// `a` is an ancestor of `b` (reflexively) in the store `cs`.
pub open spec fn is_ancestor(cs: Seq<CommitData>, a: int, b: int) -> bool
    decreases b,
    when b >= 0
{
    a == b || (0 <= b < cs.len() && exists|j: int|
        0 <= j < cs[b].parents@.len() && (cs[b].parents@[j] as int) < b && is_ancestor(
            cs,
            a,
            cs[b].parents@[j] as int,
        ))
}

/// Decide ancestry by walking the parent pointers, which point strictly
/// backwards.
pub fn is_ancestor_of(commits: &Vec<CommitData>, a: u64, b: u64) -> (r: bool)
    requires
        store_ok(commits@),
        (a as int) < commits@.len(),
        (b as int) < commits@.len(),
    ensures
        r == is_ancestor(commits@, a as int, b as int),
    decreases b,
{
    if a == b {
        return true;
    }
    let total = commits.len();
    let bu: usize = b as usize;
    assert(bu as int == b as int);
    let n = commits[bu].parents.len();
    let mut i: usize = 0;
    while i < n
        invariant
            store_ok(commits@),
            (a as int) < commits@.len(),
            (b as int) < commits@.len(),
            n == commits@[b as int].parents@.len(),
            0 <= i <= n,
            a != b,
            forall|k: int|
                0 <= k < i ==> !is_ancestor(
                    commits@,
                    a as int,
                    commits@[b as int].parents@[k] as int,
                ),
        decreases n - i,
    {
        let total = commits.len();
        let bu: usize = b as usize;
        assert(bu as int == b as int);
        let p = commits[bu].parents[i];
        assert((p as int) < b as int);
        if is_ancestor_of(commits, a, p) {
            return true;
        }
        i = i + 1;
    }
    false
}

/// The best merge base at or below `k`: the highest-numbered commit that is
/// an ancestor of both sides.
pub open spec fn base_below(cs: Seq<CommitData>, a: int, b: int, k: int) -> Option<int>
    decreases k + 1,
    when k >= -1
{
    if k < 0 {
        None
    } else if is_ancestor(cs, k, a) && is_ancestor(cs, k, b) {
        Some(k)
    } else {
        base_below(cs, a, b, k - 1)
    }
}

/// The merge base of two commits: the highest-numbered common ancestor.
pub open spec fn spec_merge_base(cs: Seq<CommitData>, a: int, b: int) -> Option<int> {
    base_below(cs, a, b, if a <= b { a } else { b })
}

/// Find the merge base by scanning identifiers downwards.
pub fn merge_base(commits: &Vec<CommitData>, a: u64, b: u64) -> (r: Option<u64>)
    requires
        store_ok(commits@),
        (a as int) < commits@.len(),
        (b as int) < commits@.len(),
    ensures
        match r {
            Some(k) => spec_merge_base(commits@, a as int, b as int) == Some(k as int) && k <= a
                && k <= b,
            None => spec_merge_base(commits@, a as int, b as int) is None,
        },
{
    let top: u64 = if a <= b {
        a
    } else {
        b
    };
    let mut k: u64 = top;
    loop
        invariant
            store_ok(commits@),
            (a as int) < commits@.len(),
            (b as int) < commits@.len(),
            0 <= k <= top,
            (top as int) < commits@.len(),
            top as int == (if a as int <= b as int {
                a as int
            } else {
                b as int
            }),
            base_below(commits@, a as int, b as int, top as int) == base_below(
                commits@,
                a as int,
                b as int,
                k as int,
            ),
        ensures
            base_below(commits@, a as int, b as int, top as int) == Some(k as int),
        decreases k,
    {
        if is_ancestor_of(commits, k, a) && is_ancestor_of(commits, k, b) {
            break ;
        }
        if k == 0 {
            proof {
                assert(base_below(commits@, a as int, b as int, -1) is None);
                assert(base_below(commits@, a as int, b as int, 0) is None);
            }
            return None;
        }
        k = k - 1;
    }
    Some(k)
}

} // verus!
